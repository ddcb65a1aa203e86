//! Laid-out text: colored fragments, rows of fragments and blocks of rows.

use vstd::prelude::*;

use crate::glyph::GlyphTable;
use crate::types::ColorPair;

verus! {

/// A run of characters drawn in one color pair, with its original width.
pub struct TextFragment {
    content: Vec<char>,
    color_pair: ColorPair,
    orig_width: i32,
}

/// What a fragment holds.
pub struct FragmentView {
    pub content: Seq<char>,
    pub color_pair: ColorPair,
    pub orig_width: i32,
}

impl View for TextFragment {
    type V = FragmentView;

    closed spec fn view(&self) -> FragmentView {
        FragmentView {
            content: self.content@,
            color_pair: self.color_pair,
            orig_width: self.orig_width,
        }
    }
}

/// A sequence of `n` spaces.
pub open spec fn spaces_seq(n: nat) -> Seq<char> {
    Seq::new(n, |i: int| ' ')
}

/// The fragment for a string: its width is the sum of its glyphs' widths.
pub open spec fn spec_fragment(glyphs: &GlyphTable, content: Seq<char>, color_pair: ColorPair) -> FragmentView {
    FragmentView {
        content,
        color_pair,
        orig_width: glyphs.spec_str_width(content) as i32,
    }
}

/// The fragment of `n` spaces in the default colors.
pub open spec fn spec_spaces_fragment(glyphs: &GlyphTable, n: nat) -> FragmentView {
    spec_fragment(glyphs, spaces_seq(n), default_color_pair())
}

pub open spec fn default_color_pair() -> ColorPair {
    ColorPair {
        foreground: crate::types::Color { r: 0, g: 0, b: 0 },
        background: crate::types::Color { r: 0, g: 0, b: 0 },
    }
}

/// The width of `n` spaces is `n` original cells.
pub proof fn lemma_spaces_width(glyphs: &GlyphTable, n: nat)
    ensures
        glyphs.spec_str_width(spaces_seq(n)) == n * glyphs.orig_width,
    decreases n,
{
    if n > 0 {
        assert(spaces_seq(n).drop_last() =~= spaces_seq((n - 1) as nat));
        lemma_spaces_width(glyphs, (n - 1) as nat);
        assert(n * glyphs.orig_width == (n - 1) * glyphs.orig_width + glyphs.orig_width)
            by (nonlinear_arith);
    }
}

/// The width of a string, summed glyph by glyph.
pub fn str_width(glyphs: &GlyphTable, content: &Vec<char>) -> (w: i32)
    requires
        glyphs.wf(),
        glyphs.spec_str_width(content@) <= i32::MAX,
    ensures
        w == glyphs.spec_str_width(content@),
{
    let mut w: i32 = 0;
    let mut i: usize = 0;
    while i < content.len()
        invariant
            i <= content@.len(),
            glyphs.wf(),
            glyphs.spec_str_width(content@) <= i32::MAX,
            w == glyphs.spec_str_width(content@.take(i as int)),
        decreases content@.len() - i,
    {
        proof {
            let p = content@.take(i as int);
            let q = content@.take(i as int + 1);
            assert(q.drop_last() =~= p);
            glyphs.lemma_str_width_nonneg(q);
            glyphs.lemma_str_width_nonneg(content@.skip(i as int + 1));
            glyphs.lemma_str_width_concat(q, content@.skip(i as int + 1));
            assert(q + content@.skip(i as int + 1) =~= content@);
        }
        let (cw, _) = crate::glyph::get_glyph_orig_size(glyphs, content[i]);
        w = w + cw;
        i += 1;
    }
    proof {
        assert(content@.take(content@.len() as int) =~= content@);
    }
    w
}

/// The width of a string, or `None` where it does not fit an `i32`.
pub fn str_width_checked(glyphs: &GlyphTable, content: &Vec<char>) -> (w: Option<i32>)
    requires
        glyphs.wf(),
    ensures
        match w {
            Some(v) => v == glyphs.spec_str_width(content@),
            None => glyphs.spec_str_width(content@) > i32::MAX,
        },
{
    let mut w: i32 = 0;
    let mut i: usize = 0;
    while i < content.len()
        invariant
            i <= content@.len(),
            glyphs.wf(),
            w == glyphs.spec_str_width(content@.take(i as int)),
        decreases content@.len() - i,
    {
        let ghost q = content@.take(i as int + 1);
        proof {
            assert(q.drop_last() =~= content@.take(i as int));
        }
        let (cw, _) = crate::glyph::get_glyph_orig_size(glyphs, content[i]);
        match w.checked_add(cw) {
            Some(v) => {
                w = v;
            },
            None => {
                proof {
                    assert(q.last() == content@[i as int]);
                    glyphs.lemma_str_width_nonneg(content@.take(i as int));
                    glyphs.lemma_orig_size_ok(content@[i as int]);
                    assert(glyphs.spec_str_width(q) > i32::MAX);
                    glyphs.lemma_str_width_nonneg(content@.skip(i as int + 1));
                    glyphs.lemma_str_width_concat(q, content@.skip(i as int + 1));
                    assert(q + content@.skip(i as int + 1) =~= content@);
                }
                return None;
            },
        }
        i += 1;
    }
    proof {
        assert(content@.take(content@.len() as int) =~= content@);
    }
    Some(w)
}

impl TextFragment {
    /// The fragment for `content` in `color_pair`.
    pub fn new(glyphs: &GlyphTable, content: Vec<char>, color_pair: ColorPair) -> (f: TextFragment)
        requires
            glyphs.wf(),
            glyphs.spec_str_width(content@) <= i32::MAX,
        ensures
            f@ == spec_fragment(glyphs, content@, color_pair),
    {
        let orig_width = str_width(glyphs, &content);
        TextFragment { content, color_pair, orig_width }
    }

    /// A fragment of `count` spaces.
    pub fn spaces(glyphs: &GlyphTable, count: usize) -> (f: TextFragment)
        requires
            glyphs.wf(),
            count * glyphs.orig_width <= i32::MAX,
        ensures
            f@ == spec_spaces_fragment(glyphs, count as nat),
            f@.orig_width == count * glyphs.orig_width,
    {
        let mut content: Vec<char> = Vec::new();
        let mut i: usize = 0;
        while i < count
            invariant
                i <= count,
                content@ == spaces_seq(i as nat),
            decreases count - i,
        {
            content.push(' ');
            i += 1;
            proof {
                assert(content@ =~= spaces_seq(i as nat));
            }
        }
        proof {
            lemma_spaces_width(glyphs, count as nat);
        }
        TextFragment::new(glyphs, content, ColorPair::new_foreground(crate::types::Color::black()))
    }

    /// The original width of the fragment.
    pub fn orig_width(&self) -> (w: i32)
        ensures
            w == self@.orig_width,
    {
        self.orig_width
    }

    /// The characters of the fragment.
    pub fn content(&self) -> (s: String)
        ensures
            s@ == self@.content,
    {
        crate::strings::chars_to_string(&self.content)
    }

    /// The color pair of the fragment.
    pub fn color_pair(&self) -> (c: ColorPair)
        ensures
            c == self@.color_pair,
    {
        self.color_pair
    }

    /// Whether the fragment is a single space.
    pub fn is_single_space(&self) -> (b: bool)
        ensures
            b == (self@.content == seq![' ']),
    {
        let b = self.content.len() == 1 && self.content[0] == ' ';
        proof {
            if b {
                assert(self@.content =~= seq![' ']);
            }
        }
        b
    }

    pub fn duplicate(&self) -> (f: TextFragment)
        ensures
            f@ == self@,
    {
        TextFragment { content: self.content.clone(), color_pair: self.color_pair, orig_width: self.orig_width }
    }
}

/// A row of fragments.
pub struct TextRow {
    fragments: Vec<TextFragment>,
}

impl View for TextRow {
    type V = Seq<FragmentView>;

    closed spec fn view(&self) -> Seq<FragmentView> {
        self.fragments@.map_values(|f: TextFragment| f@)
    }
}

impl TextRow {
    pub fn new() -> (r: TextRow)
        ensures
            r@ == Seq::<FragmentView>::empty(),
    {
        let r = TextRow { fragments: Vec::new() };
        proof {
            assert(r@ =~= Seq::<FragmentView>::empty());
        }
        r
    }

    pub fn len(&self) -> (n: usize)
        ensures
            n == self@.len(),
    {
        self.fragments.len()
    }

    pub fn push(&mut self, fragment: TextFragment)
        ensures
            final(self)@ == old(self)@.push(fragment@),
    {
        self.fragments.push(fragment);
        proof {
            assert(self@ =~= old(self)@.push(fragment@));
        }
    }

    /// Removes the last fragment, if any.
    pub fn pop(&mut self)
        ensures
            final(self)@ == if old(self)@.len() == 0 {
                old(self)@
            } else {
                old(self)@.drop_last()
            },
    {
        if self.fragments.len() > 0 {
            self.fragments.pop();
            proof {
                assert(self@ =~= old(self)@.drop_last());
            }
        }
    }

    /// The fragment at `i`.
    pub fn get(&self, i: usize) -> (f: &TextFragment)
        requires
            i < self@.len(),
        ensures
            f@ == self@[i as int],
    {
        &self.fragments[i]
    }

    pub fn duplicate(&self) -> (r: TextRow)
        ensures
            r@ == self@,
    {
        let mut fragments: Vec<TextFragment> = Vec::new();
        let mut i: usize = 0;
        while i < self.fragments.len()
            invariant
                i <= self.fragments@.len(),
                fragments@.len() == i,
                forall|k: int| 0 <= k < i ==> (#[trigger] fragments@[k])@ == self.fragments@[k]@,
            decreases self.fragments@.len() - i,
        {
            fragments.push(self.fragments[i].duplicate());
            i += 1;
        }
        let r = TextRow { fragments };
        proof {
            assert(r@ =~= self@);
        }
        r
    }
}

/// A block of rows laid out for a number of columns.
pub struct TextBlock {
    columns: usize,
    rows: Vec<TextRow>,
}

/// What a block holds.
pub struct BlockView {
    pub columns: nat,
    pub rows: Seq<Seq<FragmentView>>,
}

impl View for TextBlock {
    type V = BlockView;

    closed spec fn view(&self) -> BlockView {
        BlockView { columns: self.columns as nat, rows: self.rows@.map_values(|r: TextRow| r@) }
    }
}

impl TextBlock {
    /// An empty block for `columns` columns.
    pub fn from_columns(columns: usize) -> (b: TextBlock)
        ensures
            b@ == (BlockView { columns: columns as nat, rows: Seq::empty() }),
    {
        let b = TextBlock { columns, rows: Vec::new() };
        proof {
            assert(b@.rows =~= Seq::<Seq<FragmentView>>::empty());
        }
        b
    }

    pub fn push(&mut self, row: TextRow)
        ensures
            final(self)@ == (BlockView { columns: old(self)@.columns, rows: old(self)@.rows.push(row@) }),
    {
        self.rows.push(row);
        proof {
            assert(self@.rows =~= old(self)@.rows.push(row@));
        }
    }

    pub fn columns(&self) -> (n: usize)
        ensures
            n == self@.columns,
    {
        self.columns
    }

    pub fn row_count(&self) -> (n: usize)
        ensures
            n == self@.rows.len(),
    {
        self.rows.len()
    }

    pub fn row(&self, i: usize) -> (r: &TextRow)
        requires
            i < self@.rows.len(),
        ensures
            r@ == self@.rows[i as int],
    {
        &self.rows[i]
    }

    pub fn duplicate(&self) -> (b: TextBlock)
        ensures
            b@ == self@,
    {
        let mut rows: Vec<TextRow> = Vec::new();
        let mut i: usize = 0;
        while i < self.rows.len()
            invariant
                i <= self.rows@.len(),
                rows@.len() == i,
                forall|k: int| 0 <= k < i ==> (#[trigger] rows@[k])@ == self.rows@[k]@,
            decreases self.rows@.len() - i,
        {
            rows.push(self.rows[i].duplicate());
            i += 1;
        }
        let b = TextBlock { columns: self.columns, rows };
        proof {
            assert(b@.rows =~= self@.rows);
        }
        b
    }
}

} // verus!
