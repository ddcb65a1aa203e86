//! Recognizing CJK characters by the shape of their glyph.

use vstd::prelude::*;

use crate::glyph::GlyphTable;

verus! {

/// A CJK character is drawn in a square cell.
pub open spec fn spec_is_cjk(glyphs: &GlyphTable, ch: char) -> bool {
    glyphs.spec_surface_size(ch).0 == glyphs.spec_surface_size(ch).1
}

/// The common CJK punctuation marks: ideographic full stop and full-width
/// comma, question mark and exclamation mark.
pub open spec fn spec_is_cjk_punctuation(ch: char) -> bool {
    ch == '\u{3002}' || ch == '\u{FF0C}' || ch == '\u{FF1F}' || ch == '\u{FF01}'
}

/// Check if a character is a CJK (Chinese, Japanese, Korean) character.
pub fn is_cjk(glyphs: &GlyphTable, ch: char) -> (b: bool)
    ensures
        b == spec_is_cjk(glyphs, ch),
{
    let (w, h) = glyphs.surface_size(ch);
    w == h
}

/// Check if a character is a common CJK punctuation mark.
pub fn is_cjk_punctuation(ch: char) -> (b: bool)
    ensures
        b == spec_is_cjk_punctuation(ch),
{
    match ch {
        '\u{3002}' | '\u{FF0C}' | '\u{FF1F}' | '\u{FF01}' => true,
        _ => false,
    }
}

} // verus!
