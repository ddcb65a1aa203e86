//! Plain value types shared by the markup, text and rendering code.

use vstd::prelude::*;

verus! {

/// An RGB color.
#[derive(Clone, Copy, Debug, PartialEq, Eq, Structural)]
pub struct Color {
    pub r: u8,
    pub g: u8,
    pub b: u8,
}

impl Color {
    /// Black, the color of a word that was never colored.
    pub fn black() -> (c: Color)
        ensures
            c == (Color { r: 0, g: 0, b: 0 }),
    {
        Color { r: 0, g: 0, b: 0 }
    }
}

/// A foreground and background color.
#[derive(Clone, Copy, Debug, PartialEq, Eq, Structural)]
pub struct ColorPair {
    pub foreground: Color,
    pub background: Color,
}

impl ColorPair {
    /// A pair with the given foreground on a black background.
    pub fn new_foreground(foreground: Color) -> (p: ColorPair)
        ensures
            p == (ColorPair { foreground, background: Color { r: 0, g: 0, b: 0 } }),
    {
        ColorPair { foreground, background: Color::black() }
    }
}

/// A screen cell position.
#[derive(Clone, Copy, Debug, PartialEq, Eq, Structural)]
pub struct Coordinate {
    pub column: i32,
    pub row: i32,
}

/// The size of the screen in cells.
#[derive(Clone, Copy, Debug, PartialEq, Eq, Structural)]
pub struct Dimensions {
    pub width: i32,
    pub height: i32,
}

/// Tile flag: the tile's texture is drawn in grayscale.
pub const SCREENTEXPOS_FLAG_GRAYSCALE: u32 = 0x1;

/// Tile flag: the tile's texture takes the text's colors.
pub const SCREENTEXPOS_FLAG_ADDCOLOR: u32 = 0x2;

/// The index of the screen tile at `coordinate`: the screen is stored column
/// by column.
pub fn tile_index(coordinate: Coordinate, dimensions: Dimensions) -> (t: usize)
    requires
        i32::MIN <= coordinate.column * dimensions.height + coordinate.row <= i32::MAX,
    ensures
        t == (coordinate.column * dimensions.height + coordinate.row) as usize,
{
    proof {
        assert(-0x4000_0000_0000_0000 <= (coordinate.column as int) * (dimensions.height as int)
            <= 0x4000_0000_0000_0000) by (nonlinear_arith)
            requires
                -0x8000_0000 <= coordinate.column <= 0x7fff_ffff,
                -0x8000_0000 <= dimensions.height <= 0x7fff_ffff,
        ;
    }
    let t = (coordinate.column as i64) * (dimensions.height as i64) + (coordinate.row as i64);
    (t as i32) as usize
}

/// The color pair text is drawn in on a tile: a tile with a texture
/// (`texpos` non-zero) is drawn white on black unless its flags gray it or
/// give it the text's colors. The flag says whether the tile is grayed,
/// which the game's colors do not follow.
pub fn tile_color_pair(pair: ColorPair, texpos: i64, flag: u32) -> (r: (ColorPair, bool))
    ensures
        r.1 == (texpos != 0 && flag & SCREENTEXPOS_FLAG_GRAYSCALE != 0),
        r.0 == if texpos != 0 && flag & SCREENTEXPOS_FLAG_GRAYSCALE == 0 && flag & SCREENTEXPOS_FLAG_ADDCOLOR == 0 {
            ColorPair { foreground: Color { r: 255, g: 255, b: 255 }, background: Color { r: 0, g: 0, b: 0 } }
        } else {
            pair
        },
{
    if texpos != 0 {
        if flag & SCREENTEXPOS_FLAG_GRAYSCALE != 0 {
            (pair, true)
        } else if flag & SCREENTEXPOS_FLAG_ADDCOLOR != 0 {
            (pair, false)
        } else {
            (ColorPair { foreground: Color { r: 255, g: 255, b: 255 }, background: Color { r: 0, g: 0, b: 0 } }, false)
        }
    } else {
        (pair, false)
    }
}

} // verus!
