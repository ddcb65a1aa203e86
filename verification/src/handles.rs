//! Handles of objects the game and SDL own, held by their addresses, and the
//! game's vectors as three addresses.

use vstd::prelude::*;

verus! {

/// A game vector: the addresses of its first element, past its last element
/// and past its storage.
#[derive(Clone, Copy, Debug, PartialEq, Eq, Structural)]
pub struct SVector {
    pub begin: usize,
    pub end: usize,
    pub limit: usize,
}

impl SVector {
    /// The number of elements of `elem_size` bytes.
    pub fn size(&self, elem_size: usize) -> (n: usize)
        requires
            self.begin <= self.end,
            elem_size > 0,
        ensures
            n == (self.end - self.begin) / (elem_size as int),
    {
        (self.end - self.begin) / elem_size
    }
}

/// The layout of a C++ vector: its begin, end and capacity addresses.
#[derive(Clone, Copy, Debug, PartialEq, Eq, Structural)]
pub struct RawCppVector {
    pub begin: usize,
    pub end: usize,
    pub capacity: usize,
}

/// The address a C++ vector handle refers to.
pub struct CppVectorInner {
    ptr: usize,
}

/// A handle of a C++ vector.
pub struct CppVector {
    inner: CppVectorInner,
}

impl CppVector {
    pub closed spec fn address(&self) -> usize {
        self.inner.ptr
    }

    /// The handle of the C++ vector at `ptr`.
    pub fn from_raw(ptr: usize) -> (v: CppVector)
        ensures
            v.address() == ptr,
    {
        CppVector { inner: CppVectorInner { ptr } }
    }

    /// The vector's address.
    pub fn raw(&self) -> (p: usize)
        ensures
            p == self.address(),
    {
        self.inner.ptr
    }

    /// The vector's address, for changing the vector.
    pub fn raw_mut(&mut self) -> (p: usize)
        ensures
            p == old(self).address(),
            final(self).address() == old(self).address(),
    {
        self.inner.ptr
    }
}

/// The address of an SDL renderer.
pub struct RendererInner {
    ptr: usize,
}

/// A handle of an SDL renderer; two handles are equal when they refer to the
/// same renderer.
pub struct Renderer {
    inner: RendererInner,
}

impl RendererInner {
    pub closed spec fn address(&self) -> usize {
        self.ptr
    }

    /// The renderer's address.
    pub fn raw(&self) -> (p: usize)
        ensures
            p == self.address(),
    {
        self.ptr
    }

    /// The renderer's address, for changing the renderer.
    pub fn raw_mut(&self) -> (p: usize)
        ensures
            p == self.address(),
    {
        self.ptr
    }
}

impl Renderer {
    pub closed spec fn address(&self) -> usize {
        self.inner.ptr
    }

    /// The handle of the renderer at `ptr`.
    pub fn from_raw(ptr: usize) -> (r: Renderer)
        ensures
            r.address() == ptr,
    {
        Renderer { inner: RendererInner { ptr } }
    }

    /// The renderer's own data.
    pub fn inner(&self) -> (i: &RendererInner)
        ensures
            i.address() == self.address(),
    {
        &self.inner
    }

    /// Whether two handles refer to the same renderer.
    pub fn same(&self, other: &Renderer) -> (b: bool)
        ensures
            b == (self.address() == other.address()),
    {
        self.inner.ptr == other.inner.ptr
    }
}

/// The address of an SDL texture.
pub struct TextureInner {
    ptr: usize,
}

/// A handle of an SDL texture.
pub struct Texture {
    inner: TextureInner,
}

impl TextureInner {
    pub closed spec fn address(&self) -> usize {
        self.ptr
    }

    /// The texture's address.
    pub fn raw(&self) -> (p: usize)
        ensures
            p == self.address(),
    {
        self.ptr
    }

    /// The texture's address, for changing the texture.
    pub fn raw_mut(&self) -> (p: usize)
        ensures
            p == self.address(),
    {
        self.ptr
    }
}

impl Texture {
    pub closed spec fn address(&self) -> usize {
        self.inner.ptr
    }

    /// The handle of the texture at `ptr`.
    pub fn from_address(ptr: usize) -> (t: Texture)
        ensures
            t.address() == ptr,
    {
        Texture { inner: TextureInner { ptr } }
    }

    /// The texture's own data.
    pub fn inner(&self) -> (i: &TextureInner)
        ensures
            i.address() == self.address(),
    {
        &self.inner
    }
}

/// The address of an SDL window.
pub struct WindowInner {
    ptr: usize,
}

/// A handle of an SDL window.
pub struct Window {
    inner: WindowInner,
}

impl WindowInner {
    pub closed spec fn address(&self) -> usize {
        self.ptr
    }

    /// The window's address.
    pub fn raw(&self) -> (p: usize)
        ensures
            p == self.address(),
    {
        self.ptr
    }

    /// The window's address, for changing the window.
    pub fn raw_mut(&self) -> (p: usize)
        ensures
            p == self.address(),
    {
        self.ptr
    }
}

impl Window {
    pub closed spec fn address(&self) -> usize {
        self.inner.ptr
    }

    /// The handle of the window at `ptr`.
    pub fn from_raw(ptr: usize) -> (w: Window)
        ensures
            w.address() == ptr,
    {
        Window { inner: WindowInner { ptr } }
    }

    /// The window's own data.
    pub fn inner(&self) -> (i: &WindowInner)
        ensures
            i.address() == self.address(),
    {
        &self.inner
    }
}

} // verus!
