//! Markup text boxes: parsing the game's markup language into words and
//! laying the words out in rows of a given width.
//!
//! Markup is plain text with bracketed tokens: `[C:f:b:bright]` sets the
//! color, `[R]`, `[B]` and `[P]` break lines, `[CHAR:n]` inserts a CP437
//! character, `[LPAGE:type:id]`..`[/LPAGE]` links text, `[KEY:n]` shows a key
//! binding; `[[` and `]]` stand for literal brackets.

use vstd::prelude::*;

use crate::chars::{parse_i32, parse_u32, spec_parse_i32, spec_parse_u32, spec_utf8_len_seq, utf8_len_chars, lemma_utf8_len_seq_bounds};
use crate::cjk::{is_cjk, is_cjk_punctuation, spec_is_cjk, spec_is_cjk_punctuation};
use crate::color::CursesColor;
use crate::cp437::{spec_cp437_char, spec_cp437_codepoint, string_to_cp437_codepoints};
use crate::glyph::GlyphTable;
use crate::strings::{chars_to_string, string_to_chars};
use crate::text::{spec_fragment, spec_spaces_fragment, spaces_seq, str_width_checked, BlockView, FragmentView, TextBlock, TextFragment, TextRow};
use crate::types::{Color, ColorPair};

verus! {

/// Word flag: ends the current line.
pub const MARKUP_WORD_FLAG_NEWLINE: u32 = 0b0001;

/// Word flag: ends the current line and leaves a blank line.
pub const MARKUP_WORD_FLAG_BLANK_LINE: u32 = 0b0010;

/// Word flag: ends the current line and indents the next by four spaces.
pub const MARKUP_WORD_FLAG_INDENT: u32 = 0b0100;

/// Longest markup, in characters, that the parser takes: the byte positions
/// it computes, at most four a character, and with them the count of links,
/// whose indices are `i32`, fit in an `i32`.
pub const MAX_MARKUP_CHARS: usize = (i32::MAX as usize - 1) / 4;

/// The kind of page a markup link points to.
#[allow(non_camel_case_types)]
#[derive(Clone, Copy, Debug, PartialEq, Eq, Structural)]
pub enum LinkType {
    NONE,
    HIST_FIG,
    SITE,
    ARTIFACT,
    BOOK,
    SUBREGION,
    FEATURE_LAYER,
    ENTITY,
    ABSTRACT_BUILDING,
    ENTITY_POPULATION,
    ART_IMAGE,
    ERA,
    HEC,
}

/// A link of a markup text box.
#[derive(Clone, Copy, Debug, PartialEq, Eq, Structural)]
pub struct ManagedMarkupLink {
    typ: LinkType,
    id: i32,
    subid: i32,
}

impl ManagedMarkupLink {
    pub closed spec fn spec_new(typ: LinkType, id: i32, subid: i32) -> ManagedMarkupLink {
        ManagedMarkupLink { typ, id, subid }
    }

    fn new(typ: LinkType, id: i32, subid: i32) -> (l: ManagedMarkupLink)
        ensures
            l == ManagedMarkupLink::spec_new(typ, id, subid),
    {
        ManagedMarkupLink { typ, id, subid }
    }

    pub closed spec fn spec_typ(&self) -> LinkType {
        self.typ
    }

    pub closed spec fn spec_id(&self) -> i32 {
        self.id
    }

    pub closed spec fn spec_subid(&self) -> i32 {
        self.subid
    }

    pub proof fn lemma_spec_new(typ: LinkType, id: i32, subid: i32)
        ensures
            ManagedMarkupLink::spec_new(typ, id, subid).spec_typ() == typ,
            ManagedMarkupLink::spec_new(typ, id, subid).spec_id() == id,
            ManagedMarkupLink::spec_new(typ, id, subid).spec_subid() == subid,
    {
    }

    pub fn link_type(&self) -> (t: LinkType)
        ensures
            t == self.spec_typ(),
    {
        self.typ
    }

    pub fn id(&self) -> (id: i32)
        ensures
            id == self.spec_id(),
    {
        self.id
    }

    pub fn subid(&self) -> (subid: i32)
        ensures
            subid == self.spec_subid(),
    {
        self.subid
    }
}

/// A word of a markup text box: a run of characters in one color, or an
/// empty word that carries a line-break flag.
pub struct ManagedMarkupWord {
    str: Vec<char>,
    color: Color,
    link_index: i32,
    x: i32,
    y: i32,
    width: i32,
    width_px: i32,
    flags: u32,
}

/// What a word holds: its characters, color, link, layout column `x`, row
/// `y`, width in columns, cached width in pixels and flags.
pub struct WordView {
    pub str: Seq<char>,
    pub color: Color,
    pub link_index: i32,
    pub x: i32,
    pub y: i32,
    pub width: i32,
    pub width_px: i32,
    pub flags: u32,
}

impl View for ManagedMarkupWord {
    type V = WordView;

    closed spec fn view(&self) -> WordView {
        WordView {
            str: self.str@,
            color: self.color,
            link_index: self.link_index,
            x: self.x,
            y: self.y,
            width: self.width,
            width_px: self.width_px,
            flags: self.flags,
        }
    }
}

pub open spec fn black() -> Color {
    Color { r: 0, g: 0, b: 0 }
}

/// A word of text as the parser commits it.
pub open spec fn text_word(str: Seq<char>, link_index: i32, color: Color) -> WordView {
    WordView { str, color, link_index, x: 0, y: 0, width: 0, width_px: 0, flags: 0 }
}

/// An empty word that carries a flag.
pub open spec fn flag_word(flags: u32) -> WordView {
    WordView { str: Seq::empty(), color: black(), link_index: 0, x: 0, y: 0, width: 0, width_px: 0, flags }
}

/// The word that shows a key binding.
pub open spec fn key_word(str: Seq<char>, color: Color) -> WordView {
    WordView { str, color, link_index: 0, x: 0, y: 0, width: 0, width_px: 0, flags: 0 }
}

impl ManagedMarkupWord {
    fn from_view_parts(str: Vec<char>, color: Color, link_index: i32, flags: u32) -> (w: ManagedMarkupWord)
        ensures
            w@ == (WordView { str: str@, color, link_index, x: 0, y: 0, width: 0, width_px: 0, flags }),
    {
        ManagedMarkupWord { str, color, link_index, x: 0, y: 0, width: 0, width_px: 0, flags }
    }

    /// The word with `other`'s characters appended.
    fn appended(&self, other: &ManagedMarkupWord) -> (w: ManagedMarkupWord)
        ensures
            w@ == (WordView { str: self@.str + other@.str, ..self@ }),
    {
        let mut str = self.str.clone();
        let mut k: usize = 0;
        while k < other.str.len()
            invariant
                k <= other.str@.len(),
                str@ == self.str@ + other.str@.take(k as int),
            decreases other.str@.len() - k,
        {
            proof {
                assert(other.str@.take(k as int + 1) =~= other.str@.take(k as int).push(other.str@[k as int]));
            }
            str.push(other.str[k]);
            k += 1;
        }
        proof {
            assert(other.str@.take(other.str@.len() as int) =~= other.str@);
        }
        ManagedMarkupWord { str, ..*self }
    }

    /// The word with its pixel width cached, or `None` where the width does
    /// not fit an `i32`.
    fn with_cached_width(&self, glyphs: &GlyphTable) -> (w: Option<ManagedMarkupWord>)
        requires
            glyphs.wf(),
        ensures
            match w {
                Some(w) => w@ == with_width(glyphs, self@) && glyphs.spec_str_width(self@.str) <= i32::MAX,
                None => glyphs.spec_str_width(self@.str) > i32::MAX,
            },
    {
        match str_width_checked(glyphs, &self.str) {
            Some(width_px) => Some(ManagedMarkupWord { str: self.str.clone(), width_px, ..*self }),
            None => None,
        }
    }

    pub fn duplicate(&self) -> (w: ManagedMarkupWord)
        ensures
            w@ == self@,
    {
        ManagedMarkupWord {
            str: self.str.clone(),
            color: self.color,
            link_index: self.link_index,
            x: self.x,
            y: self.y,
            width: self.width,
            width_px: self.width_px,
            flags: self.flags,
        }
    }

    /// The characters of the word.
    pub fn text(&self) -> (s: String)
        ensures
            s@ == self@.str,
    {
        chars_to_string(&self.str)
    }

    pub fn color(&self) -> (c: Color)
        ensures
            c == self@.color,
    {
        self.color
    }

    pub fn link_index(&self) -> (l: i32)
        ensures
            l == self@.link_index,
    {
        self.link_index
    }

    pub fn x(&self) -> (x: i32)
        ensures
            x == self@.x,
    {
        self.x
    }

    pub fn y(&self) -> (y: i32)
        ensures
            y == self@.y,
    {
        self.y
    }

    pub fn width(&self) -> (w: i32)
        ensures
            w == self@.width,
    {
        self.width
    }

    pub fn width_px(&self) -> (w: i32)
        ensures
            w == self@.width_px,
    {
        self.width_px
    }

    pub fn flags(&self) -> (f: u32)
        ensures
            f == self@.flags,
    {
        self.flags
    }
}

/// What the parser reads besides the markup: the game's 16-color palette and
/// the glyph metrics.
pub struct MarkupEnv {
    pub palette: Vec<Color>,
    pub glyphs: GlyphTable,
}

impl MarkupEnv {
    pub open spec fn wf(&self) -> bool {
        &&& self.palette@.len() == 16
        &&& self.glyphs.wf()
    }

    /// The palette entry of a curses color.
    pub open spec fn spec_color(&self, c: CursesColor) -> Color {
        self.palette@[c.code()]
    }
}

// ---------------------------------------------------------------------------
// Tokens

/// End of the token that starts at `pos`: the first ':' or ']' at or after
/// it, or the end of the input.
pub open spec fn grab_end(chars: Seq<char>, pos: int) -> int
    decreases chars.len() - pos,
{
    if pos < 0 || pos >= chars.len() || chars[pos] == ':' || chars[pos] == ']' {
        pos
    } else {
        grab_end(chars, pos + 1)
    }
}

/// The token that starts at `pos`: characters up to the next ':' or ']'.
pub open spec fn spec_grab(chars: Seq<char>, pos: int) -> Seq<char> {
    if 0 <= pos < chars.len() {
        chars.subrange(pos, grab_end(chars, pos))
    } else {
        Seq::empty()
    }
}

pub proof fn lemma_grab_end(chars: Seq<char>, pos: int)
    requires
        0 <= pos <= chars.len(),
    ensures
        pos <= grab_end(chars, pos) <= chars.len(),
        forall|k: int| pos <= k < grab_end(chars, pos) ==> chars[k] != ':' && chars[k] != ']',
    decreases chars.len() - pos,
{
    if pos < chars.len() && chars[pos] != ':' && chars[pos] != ']' {
        lemma_grab_end(chars, pos + 1);
    }
}

pub proof fn lemma_grab_len(chars: Seq<char>, pos: int)
    requires
        0 <= pos,
    ensures
        pos < chars.len() ==> spec_grab(chars, pos).len() <= chars.len() - pos,
        spec_utf8_len_seq(spec_grab(chars, pos)) <= 4 * spec_grab(chars, pos).len(),
        spec_grab(chars, pos).len() <= spec_utf8_len_seq(spec_grab(chars, pos)),
{
    if pos < chars.len() {
        lemma_grab_end(chars, pos);
    }
    lemma_utf8_len_seq_bounds(spec_grab(chars, pos));
}

/// Grab a token string from source starting at pos until ':' or ']'.
fn grab_token_string_pos(source: &Vec<char>, pos: usize) -> (out: Vec<char>)
    ensures
        out@ == spec_grab(source@, pos as int),
{
    let mut out: Vec<char> = Vec::new();
    if pos >= source.len() {
        return out;
    }
    let mut i = pos;
    while i < source.len() && source[i] != ':' && source[i] != ']'
        invariant
            pos <= i <= source@.len(),
            grab_end(source@, pos as int) == grab_end(source@, i as int),
            out@ == source@.subrange(pos as int, i as int),
        decreases source@.len() - i,
    {
        out.push(source[i]);
        i += 1;
        proof {
            assert(out@ =~= source@.subrange(pos as int, i as int));
        }
    }
    out
}

/// Whether two character vectors hold the same characters.
fn chars_equal(a: &Vec<char>, b: &Vec<char>) -> (eq: bool)
    ensures
        eq == (a@ == b@),
{
    if a.len() != b.len() {
        return false;
    }
    let mut i: usize = 0;
    while i < a.len()
        invariant
            a@.len() == b@.len(),
            i <= a@.len(),
            forall|k: int| 0 <= k < i ==> a@[k] == b@[k],
        decreases a@.len() - i,
    {
        if a[i] != b[i] {
            return false;
        }
        i += 1;
    }
    proof {
        assert(a@ =~= b@);
    }
    true
}

/// The markup tokens the parser acts on.
#[derive(Clone, Copy, Debug, PartialEq, Eq, Structural)]
pub enum TokenKind {
    Char,
    LinkPage,
    EndLinkPage,
    Color,
    Key,
    Var,
    NewLine,
    BlankLine,
    Indent,
    Other,
}

pub open spec fn spec_token_kind(t: Seq<char>) -> TokenKind {
    if t == seq!['C', 'H', 'A', 'R'] {
        TokenKind::Char
    } else if t == seq!['L', 'P', 'A', 'G', 'E'] {
        TokenKind::LinkPage
    } else if t == seq!['/', 'L', 'P', 'A', 'G', 'E'] {
        TokenKind::EndLinkPage
    } else if t == seq!['C'] {
        TokenKind::Color
    } else if t == seq!['K', 'E', 'Y'] {
        TokenKind::Key
    } else if t == seq!['V', 'A', 'R'] {
        TokenKind::Var
    } else if t == seq!['R'] {
        TokenKind::NewLine
    } else if t == seq!['B'] {
        TokenKind::BlankLine
    } else if t == seq!['P'] {
        TokenKind::Indent
    } else {
        TokenKind::Other
    }
}

fn token_kind(t: &Vec<char>) -> (k: TokenKind)
    ensures
        k == spec_token_kind(t@),
{
    let lit0 = vec!['C', 'H', 'A', 'R'];
    assert(lit0@ == seq!['C', 'H', 'A', 'R']);
    let lit1 = vec!['L', 'P', 'A', 'G', 'E'];
    assert(lit1@ == seq!['L', 'P', 'A', 'G', 'E']);
    let lit2 = vec!['/', 'L', 'P', 'A', 'G', 'E'];
    assert(lit2@ == seq!['/', 'L', 'P', 'A', 'G', 'E']);
    let lit3 = vec!['C'];
    assert(lit3@ == seq!['C']);
    let lit4 = vec!['K', 'E', 'Y'];
    assert(lit4@ == seq!['K', 'E', 'Y']);
    let lit5 = vec!['V', 'A', 'R'];
    assert(lit5@ == seq!['V', 'A', 'R']);
    let lit6 = vec!['R'];
    assert(lit6@ == seq!['R']);
    let lit7 = vec!['B'];
    assert(lit7@ == seq!['B']);
    let lit8 = vec!['P'];
    assert(lit8@ == seq!['P']);
    if chars_equal(t, &lit0) {
        TokenKind::Char
    } else if chars_equal(t, &lit1) {
        TokenKind::LinkPage
    } else if chars_equal(t, &lit2) {
        TokenKind::EndLinkPage
    } else if chars_equal(t, &lit3) {
        TokenKind::Color
    } else if chars_equal(t, &lit4) {
        TokenKind::Key
    } else if chars_equal(t, &lit5) {
        TokenKind::Var
    } else if chars_equal(t, &lit6) {
        TokenKind::NewLine
    } else if chars_equal(t, &lit7) {
        TokenKind::BlankLine
    } else if chars_equal(t, &lit8) {
        TokenKind::Indent
    } else {
        TokenKind::Other
    }
}

/// The link type an `LPAGE` argument names.
pub open spec fn spec_link_type(t: Seq<char>) -> LinkType {
    if t == seq!['H', 'F'] {
        LinkType::HIST_FIG
    } else if t == seq!['S', 'I', 'T', 'E'] {
        LinkType::SITE
    } else if t == seq!['A', 'R', 'T', 'I', 'F', 'A', 'C', 'T'] {
        LinkType::ARTIFACT
    } else if t == seq!['B', 'O', 'O', 'K'] {
        LinkType::BOOK
    } else if t == seq!['S', 'R'] {
        LinkType::SUBREGION
    } else if t == seq!['L', 'F'] {
        LinkType::FEATURE_LAYER
    } else if t == seq!['E', 'N', 'T'] {
        LinkType::ENTITY
    } else if t == seq!['A', 'B'] {
        LinkType::ABSTRACT_BUILDING
    } else if t == seq!['E', 'P', 'O', 'P'] {
        LinkType::ENTITY_POPULATION
    } else if t == seq!['A', 'R', 'T', '_', 'I', 'M', 'A', 'G', 'E'] {
        LinkType::ART_IMAGE
    } else if t == seq!['E', 'R', 'A'] {
        LinkType::ERA
    } else if t == seq!['H', 'E', 'C'] {
        LinkType::HEC
    } else {
        LinkType::NONE
    }
}

/// The name `[LPAGE:..]` gives a link type by; none for `NONE`.
pub open spec fn link_type_tag(t: LinkType) -> Seq<char> {
    match t {
        LinkType::NONE => Seq::empty(),
        LinkType::HIST_FIG => seq!['H', 'F'],
        LinkType::SITE => seq!['S', 'I', 'T', 'E'],
        LinkType::ARTIFACT => seq!['A', 'R', 'T', 'I', 'F', 'A', 'C', 'T'],
        LinkType::BOOK => seq!['B', 'O', 'O', 'K'],
        LinkType::SUBREGION => seq!['S', 'R'],
        LinkType::FEATURE_LAYER => seq!['L', 'F'],
        LinkType::ENTITY => seq!['E', 'N', 'T'],
        LinkType::ABSTRACT_BUILDING => seq!['A', 'B'],
        LinkType::ENTITY_POPULATION => seq!['E', 'P', 'O', 'P'],
        LinkType::ART_IMAGE => seq!['A', 'R', 'T', '_', 'I', 'M', 'A', 'G', 'E'],
        LinkType::ERA => seq!['E', 'R', 'A'],
        LinkType::HEC => seq!['H', 'E', 'C'],
    }
}

/// An `[LPAGE:..]` type argument gives a link type exactly where it is that
/// type's name: each type is read back from its own name, and any other
/// argument gives `NONE`.
pub proof fn lemma_link_type_by_name(t: LinkType, s: Seq<char>)
    ensures
        t != LinkType::NONE ==> spec_link_type(link_type_tag(t)) == t,
        spec_link_type(s) != LinkType::NONE ==> link_type_tag(spec_link_type(s)) == s,
        spec_link_type(s) == LinkType::NONE <==> (forall|u: LinkType| u != LinkType::NONE ==> link_type_tag(u) != s),
{
    assert(seq!['H', 'F'] != seq!['S', 'R']);
    assert(seq!['H', 'F'] != seq!['L', 'F']);
    assert(seq!['H', 'F'] != seq!['A', 'B']);
    assert(seq!['S', 'R'] != seq!['L', 'F']);
    assert(seq!['S', 'R'] != seq!['A', 'B']);
    assert(seq!['L', 'F'] != seq!['A', 'B']);
    assert(seq!['E', 'N', 'T'] != seq!['E', 'R', 'A']);
    assert(seq!['E', 'N', 'T'] != seq!['H', 'E', 'C']);
    assert(seq!['E', 'R', 'A'] != seq!['H', 'E', 'C']);
    assert(seq!['S', 'I', 'T', 'E'] != seq!['B', 'O', 'O', 'K']);
    assert(seq!['S', 'I', 'T', 'E'] != seq!['E', 'P', 'O', 'P']);
    assert(seq!['B', 'O', 'O', 'K'] != seq!['E', 'P', 'O', 'P']);
    assert(seq!['A', 'R', 'T', 'I', 'F', 'A', 'C', 'T'][0] != seq!['A', 'R', 'T', '_', 'I', 'M', 'A', 'G', 'E'][0]
        || seq!['A', 'R', 'T', 'I', 'F', 'A', 'C', 'T'].len() != 9);
    if spec_link_type(s) == LinkType::NONE {
        assert forall|u: LinkType| u != LinkType::NONE implies link_type_tag(u) != s by {
            if link_type_tag(u) == s {
                assert(spec_link_type(link_type_tag(u)) == u);
            }
        }
    } else {
        let u = spec_link_type(s);
        assert(link_type_tag(u) == s);
    }
}

fn link_type_of(t: &Vec<char>) -> (lt: LinkType)
    ensures
        lt == spec_link_type(t@),
{
    let lit0 = vec!['H', 'F'];
    assert(lit0@ == seq!['H', 'F']);
    let lit1 = vec!['S', 'I', 'T', 'E'];
    assert(lit1@ == seq!['S', 'I', 'T', 'E']);
    let lit2 = vec!['A', 'R', 'T', 'I', 'F', 'A', 'C', 'T'];
    assert(lit2@ == seq!['A', 'R', 'T', 'I', 'F', 'A', 'C', 'T']);
    let lit3 = vec!['B', 'O', 'O', 'K'];
    assert(lit3@ == seq!['B', 'O', 'O', 'K']);
    let lit4 = vec!['S', 'R'];
    assert(lit4@ == seq!['S', 'R']);
    let lit5 = vec!['L', 'F'];
    assert(lit5@ == seq!['L', 'F']);
    let lit6 = vec!['E', 'N', 'T'];
    assert(lit6@ == seq!['E', 'N', 'T']);
    let lit7 = vec!['A', 'B'];
    assert(lit7@ == seq!['A', 'B']);
    let lit8 = vec!['E', 'P', 'O', 'P'];
    assert(lit8@ == seq!['E', 'P', 'O', 'P']);
    let lit9 = vec!['A', 'R', 'T', '_', 'I', 'M', 'A', 'G', 'E'];
    assert(lit9@ == seq!['A', 'R', 'T', '_', 'I', 'M', 'A', 'G', 'E']);
    let lit10 = vec!['E', 'R', 'A'];
    assert(lit10@ == seq!['E', 'R', 'A']);
    let lit11 = vec!['H', 'E', 'C'];
    assert(lit11@ == seq!['H', 'E', 'C']);
    if chars_equal(t, &lit0) {
        LinkType::HIST_FIG
    } else if chars_equal(t, &lit1) {
        LinkType::SITE
    } else if chars_equal(t, &lit2) {
        LinkType::ARTIFACT
    } else if chars_equal(t, &lit3) {
        LinkType::BOOK
    } else if chars_equal(t, &lit4) {
        LinkType::SUBREGION
    } else if chars_equal(t, &lit5) {
        LinkType::FEATURE_LAYER
    } else if chars_equal(t, &lit6) {
        LinkType::ENTITY
    } else if chars_equal(t, &lit7) {
        LinkType::ABSTRACT_BUILDING
    } else if chars_equal(t, &lit8) {
        LinkType::ENTITY_POPULATION
    } else if chars_equal(t, &lit9) {
        LinkType::ART_IMAGE
    } else if chars_equal(t, &lit10) {
        LinkType::ERA
    } else if chars_equal(t, &lit11) {
        LinkType::HEC
    } else {
        LinkType::NONE
    }
}

/// The character `char::from_u32` gives, or a space where it gives none.
pub open spec fn spec_char_or_space(code: u32) -> char {
    if code <= 0x10FFFF && !(0xD800 <= code <= 0xDFFF) {
        code as char
    } else {
        ' '
    }
}

/// The character with a code point, if there is one.
///
/// Trusted: `char::from_u32` (std) returns `Some` exactly for the Unicode
/// scalar values (at most 0x10FFFF and not a surrogate), holding that value.
#[verifier::external_body]
fn char_from_u32(code: u32) -> (c: Option<char>)
    ensures
        c is Some <==> (code <= 0x10FFFF && !(0xD800 <= code <= 0xDFFF)),
        c matches Some(v) ==> v == code as char,
{
    char::from_u32(code)
}

fn char_or_space(code: u32) -> (c: char)
    ensures
        c == spec_char_or_space(code),
{
    match char_from_u32(code) {
        Some(c) => c,
        None => ' ',
    }
}

/// The character of `[CHAR:n]`: the CP437 character of a code below 256,
/// else the character with that code point, or a space where there is none.
pub open spec fn spec_char_code(code: u32) -> char {
    if code < 256 {
        spec_cp437_char(code as u8)
    } else {
        spec_char_or_space(code)
    }
}

fn char_of_code(code: u32) -> (c: char)
    ensures
        c == spec_char_code(code),
{
    if code < 256 {
        crate::cp437::cp437_codepoint_to_char(code as u8)
    } else {
        char_or_space(code)
    }
}

pub open spec fn unwrap_i32_or(o: Option<i32>, d: i32) -> i32 {
    match o {
        Some(v) => v,
        None => d,
    }
}

pub open spec fn unwrap_u32_or(o: Option<u32>, d: u32) -> u32 {
    match o {
        Some(v) => v,
        None => d,
    }
}

// ---------------------------------------------------------------------------
// Parsing

/// The state of the parser between two characters of the markup.
#[verifier::ext_equal]
pub struct ParseState {
    /// Position of the next character.
    pub i: int,
    /// Characters of the word being collected.
    pub cur: Seq<char>,
    /// Index of the link the text belongs to, -1 if none.
    pub link_index: i32,
    /// Current text color.
    pub color: CursesColor,
    /// Words committed so far.
    pub words: Seq<WordView>,
    /// Links found so far.
    pub links: Seq<ManagedMarkupLink>,
    /// The markup ended inside a token.
    pub done: bool,
    /// A `[KEY:n]` token waits for the display string of binding `n`.
    pub pending_key: Option<i32>,
    /// The markup ends with a `[CHAR:..]` token that gives NUL, where the
    /// game's parser reads past the end of its input.
    pub invalid: bool,
}

pub open spec fn initial_state() -> ParseState {
    ParseState {
        i: 0,
        cur: Seq::empty(),
        link_index: -1i32,
        color: CursesColor::White,
        words: Seq::empty(),
        links: Seq::empty(),
        done: false,
        pending_key: None,
        invalid: false,
    }
}

/// Commit the collected characters as a word, if there are any.
pub open spec fn commit(env: &MarkupEnv, st: ParseState) -> ParseState {
    if st.cur.len() == 0 {
        st
    } else {
        ParseState {
            words: st.words.push(text_word(st.cur, st.link_index, env.spec_color(st.color))),
            cur: Seq::empty(),
            ..st
        }
    }
}

/// Take one character of text: CJK characters are words of their own unless
/// they are punctuation, and a space ends the word unless it is literal.
pub open spec fn use_char(env: &MarkupEnv, st: ParseState, ch: char, no_split_space: bool) -> ParseState {
    let g = &env.glyphs;
    let st1 = if spec_is_cjk(g, ch) && !spec_is_cjk_punctuation(ch) {
        commit(env, st)
    } else {
        st
    };
    if ch != ' ' || no_split_space {
        let st2 = if st1.cur.len() > 0 && spec_is_cjk(g, st1.cur.last()) && !spec_is_cjk_punctuation(ch) {
            commit(env, st1)
        } else {
            st1
        };
        ParseState { cur: st2.cur.push(ch), ..st2 }
    } else {
        commit(env, st1)
    }
}

pub open spec fn at(st: ParseState, i: int) -> ParseState {
    ParseState { i, ..st }
}

pub open spec fn stop(st: ParseState, i: int) -> ParseState {
    ParseState { i, done: true, ..st }
}

/// `[CHAR:n]` or `[CHAR:~c]`, with `p` just past the token name: `n` is a CP437
/// code, `c` a character.
pub open spec fn step_char_token(chars: Seq<char>, env: &MarkupEnv, st: ParseState, p: int) -> ParseState {
    let a = p + 1;
    if a >= chars.len() {
        stop(st, a)
    } else {
        let buff = spec_grab(chars, a);
        let b = a + buff.len();
        let token_char = if buff.len() > 1 && buff[0] == '~' {
            buff[1]
        } else {
            spec_char_code(unwrap_u32_or(spec_parse_u32(buff), 32))
        };
        if token_char == '\0' {
            if b >= chars.len() {
                ParseState { i: b, done: true, invalid: true, ..st }
            } else {
                at(use_char(env, st, chars[b], true), b + 1)
            }
        } else {
            at(use_char(env, st, token_char, true), b + 1)
        }
    }
}

/// Record a link of a known type and make it the current one.
pub open spec fn add_link(st: ParseState, lt: LinkType, id: i32, subid: i32) -> ParseState {
    if lt == LinkType::NONE {
        st
    } else {
        ParseState {
            links: st.links.push(ManagedMarkupLink::spec_new(lt, id, subid)),
            link_index: st.links.len() as i32,
            ..st
        }
    }
}

/// `[LPAGE:type:id]` or `[LPAGE:type:id:subid]`. The arguments are skipped by
/// their length in UTF-8 bytes.
pub open spec fn step_link_page(chars: Seq<char>, st: ParseState, p: int) -> ParseState {
    let a = p + 1;
    if a >= chars.len() {
        stop(st, a)
    } else {
        let bt = spec_grab(chars, a);
        let b = a + spec_utf8_len_seq(bt);
        let c = b + 1;
        if c >= chars.len() {
            stop(st, c)
        } else {
            let bid = spec_grab(chars, c);
            let d = c + spec_utf8_len_seq(bid);
            let lt = spec_link_type(bt);
            let id = unwrap_i32_or(spec_parse_i32(bid), 0);
            if lt == LinkType::ABSTRACT_BUILDING || lt == LinkType::ART_IMAGE {
                let e = d + 1;
                if e >= chars.len() {
                    stop(st, e)
                } else {
                    let bs = spec_grab(chars, e);
                    let f = e + spec_utf8_len_seq(bs);
                    at(add_link(st, lt, id, unwrap_i32_or(spec_parse_i32(bs), 0)), f + 1)
                }
            } else {
                at(add_link(st, lt, id, -1i32), d + 1)
            }
        }
    }
}

/// `[C:foreground:background:bright]`; `[C:VAR:..]` keeps light gray.
pub open spec fn step_color(chars: Seq<char>, env: &MarkupEnv, st: ParseState, p: int) -> ParseState {
    let s1 = commit(env, st);
    let a = p + 1;
    if a >= chars.len() {
        stop(s1, a)
    } else {
        let b1 = spec_grab(chars, a);
        let b = a + spec_utf8_len_seq(b1);
        let c = b + 1;
        if c >= chars.len() {
            stop(s1, c)
        } else {
            let b2 = spec_grab(chars, c);
            let d = c + spec_utf8_len_seq(b2);
            let e = d + 1;
            if e >= chars.len() {
                stop(s1, e)
            } else {
                let b3 = spec_grab(chars, e);
                let f = e + spec_utf8_len_seq(b3);
                let foreground = if b1 == seq!['V', 'A', 'R'] {
                    7i32
                } else {
                    unwrap_i32_or(spec_parse_i32(b1), 7)
                };
                let bright = if b1 == seq!['V', 'A', 'R'] {
                    true
                } else {
                    unwrap_i32_or(spec_parse_i32(b3), 1) != 0
                };
                ParseState {
                    color: CursesColor::spec_from_i32(foreground).spec_with_bright(bright),
                    i: f + 1,
                    ..s1
                }
            }
        }
    }
}

/// `[KEY:n]`: the word waits for the display string of binding `n`.
pub open spec fn step_key(chars: Seq<char>, env: &MarkupEnv, st: ParseState, p: int) -> ParseState {
    let s1 = commit(env, st);
    let a = p + 1;
    if a >= chars.len() {
        stop(s1, a)
    } else {
        let buff = spec_grab(chars, a);
        let b = a + spec_utf8_len_seq(buff);
        ParseState {
            pending_key: Some(unwrap_i32_or(spec_parse_i32(buff), 0)),
            i: b + 1,
            ..s1
        }
    }
}

/// `[VAR:format:type:name]`, which the game ignores.
pub open spec fn step_var(chars: Seq<char>, st: ParseState, p: int) -> ParseState {
    let a = p + 1;
    if a >= chars.len() {
        stop(st, a)
    } else {
        let b = a + spec_utf8_len_seq(spec_grab(chars, a));
        let c = b + 1;
        if c >= chars.len() {
            stop(st, c)
        } else {
            let d = c + spec_utf8_len_seq(spec_grab(chars, c));
            let e = d + 1;
            if e >= chars.len() {
                stop(st, e)
            } else {
                let f = e + spec_utf8_len_seq(spec_grab(chars, e));
                at(st, f + 1)
            }
        }
    }
}

/// `[R]`, `[B]` or `[P]`: commit and add a flag word.
pub open spec fn step_flag(env: &MarkupEnv, st: ParseState, flags: u32, p: int) -> ParseState {
    let s1 = commit(env, st);
    ParseState { words: s1.words.push(flag_word(flags)), i: p + 1, ..s1 }
}

/// A token that starts at `pos`, just after '['.
pub open spec fn step_token(chars: Seq<char>, env: &MarkupEnv, st: ParseState, pos: int) -> ParseState {
    let tok = spec_grab(chars, pos);
    let p = pos + tok.len();
    match spec_token_kind(tok) {
        TokenKind::Char => step_char_token(chars, env, st, p),
        TokenKind::LinkPage => step_link_page(chars, st, p),
        TokenKind::EndLinkPage => {
            let s1 = commit(env, st);
            ParseState { link_index: -1i32, i: p + 1, ..s1 }
        },
        TokenKind::Color => step_color(chars, env, st, p),
        TokenKind::Key => step_key(chars, env, st, p),
        TokenKind::Var => step_var(chars, st, p),
        TokenKind::NewLine => step_flag(env, st, MARKUP_WORD_FLAG_NEWLINE, p),
        TokenKind::BlankLine => step_flag(env, st, MARKUP_WORD_FLAG_BLANK_LINE, p),
        TokenKind::Indent => step_flag(env, st, MARKUP_WORD_FLAG_INDENT, p),
        TokenKind::Other => at(st, p + 1),
    }
}

/// One step of the parser at position `st.i`.
///
/// A ']' that does not start "]]" is dropped and the next character is read
/// as usual; a '[' that starts "[[" stands for '['; '[' before one of
/// ". : ? ! " is dropped and the punctuation is taken literally.
pub open spec fn step(chars: Seq<char>, env: &MarkupEnv, st: ParseState) -> ParseState {
    let c = chars[st.i];
    let a = st.i + 1;
    if c == ']' {
        if a >= chars.len() {
            stop(st, a)
        } else if chars[a] != ']' {
            at(st, a)
        } else {
            at(use_char(env, st, ']', false), a + 1)
        }
    } else if c == '[' {
        if a >= chars.len() {
            stop(st, a)
        } else {
            let d = chars[a];
            if d == '.' || d == ':' || d == '?' || d == ' ' || d == '!' {
                at(use_char(env, st, d, true), a + 1)
            } else if d == '[' {
                at(use_char(env, st, '[', false), a + 1)
            } else {
                step_token(chars, env, st, a)
            }
        }
    } else {
        at(use_char(env, st, c, false), a)
    }
}

/// The parser may take another step.
pub open spec fn can_step(chars: Seq<char>, st: ParseState) -> bool {
    !st.done && 0 <= st.i < chars.len() && st.pending_key is None
}

pub proof fn lemma_step_progress(chars: Seq<char>, env: &MarkupEnv, st: ParseState)
    requires
        can_step(chars, st),
    ensures
        step(chars, env, st).i > st.i,
        step(chars, env, st).i <= 4 * chars.len() + 1,
        step(chars, env, st).links.len() <= st.links.len() + 1,
        step(chars, env, st).links.len() == st.links.len() || step(chars, env, st).i >= st.i + 4,
{
    let a = st.i + 1;
    if a < chars.len() {
        let tok = spec_grab(chars, a);
        lemma_grab_len(chars, a);
        let p = a + tok.len();
        let len = chars.len();
        if p + 1 < len {
            lemma_grab_len(chars, p + 1);
            let b = p + 1 + spec_utf8_len_seq(spec_grab(chars, p + 1));
            if b + 1 < len {
                lemma_grab_len(chars, b + 1);
                let d = b + 1 + spec_utf8_len_seq(spec_grab(chars, b + 1));
                if d + 1 < len {
                    lemma_grab_len(chars, d + 1);
                }
            }
        }
    }
}

/// Steps until the input ends, a token is cut off, or a key binding waits.
pub open spec fn run(chars: Seq<char>, env: &MarkupEnv, st: ParseState) -> ParseState
    decreases (if st.i < chars.len() {
        chars.len() - st.i
    } else {
        0
    }),
{
    if !can_step(chars, st) {
        st
    } else {
        proof {
            lemma_step_progress(chars, env, st);
        }
        run(chars, env, step(chars, env, st))
    }
}

/// The parser's key binding lookup: the first display string listed for a
/// binding, empty if none is.
pub open spec fn key_lookup(keys: Seq<(i32, Seq<char>)>, binding: i32) -> Seq<char>
    decreases keys.len(),
{
    if keys.len() == 0 {
        Seq::empty()
    } else if keys[0].0 == binding {
        keys[0].1
    } else {
        key_lookup(keys.drop_first(), binding)
    }
}

/// Answer a waiting `[KEY:n]` token with the binding's display string, shown
/// in light green.
pub open spec fn provide_key(env: &MarkupEnv, st: ParseState, display: Seq<char>) -> ParseState {
    ParseState {
        words: st.words.push(key_word(display, env.spec_color(CursesColor::LightGreen))),
        pending_key: None,
        ..st
    }
}

pub proof fn lemma_run_pending(chars: Seq<char>, env: &MarkupEnv, st: ParseState)
    requires
        st.pending_key is None,
        run(chars, env, st).pending_key is Some,
    ensures
        run(chars, env, st).i > st.i,
        st.i < chars.len(),
    decreases (if st.i < chars.len() {
        chars.len() - st.i
    } else {
        0
    }),
{
    if can_step(chars, st) {
        lemma_step_progress(chars, env, st);
        let s2 = step(chars, env, st);
        if s2.pending_key is None {
            lemma_run_pending(chars, env, s2);
        }
    }
}

/// Run the parser to the end, answering each `[KEY:n]` from `keys`.
pub open spec fn drive(chars: Seq<char>, env: &MarkupEnv, keys: Seq<(i32, Seq<char>)>, st: ParseState) -> ParseState
    decreases (if st.i < chars.len() {
        chars.len() - st.i
    } else {
        0
    }),
{
    let s = run(chars, env, st);
    match s.pending_key {
        Some(b) => if s.i > st.i && st.i < chars.len() {
            drive(chars, env, keys, provide_key(env, s, key_lookup(keys, b)))
        } else {
            s
        },
        None => s,
    }
}

/// Punctuation that joins the linked word before it.
pub open spec fn is_merge_punctuation(c: char) -> bool {
    c == '.' || c == ',' || c == '?' || c == '!' || c == '\u{3002}' || c == '\u{FF0C}' || c
        == '\u{FF1F}' || c == '\u{FF01}'
}

fn is_merge_punctuation_exec(c: char) -> (b: bool)
    ensures
        b == is_merge_punctuation(c),
{
    match c {
        '.' | ',' | '?' | '!' | '\u{3002}' | '\u{FF0C}' | '\u{FF1F}' | '\u{FF01}' => true,
        _ => false,
    }
}

/// Word `j` is unlinked text starting with punctuation, after a linked word.
pub open spec fn mergeable(words: Seq<WordView>, j: int) -> bool {
    &&& words[j].link_index == -1
    &&& words[j].str.len() > 0
    &&& words[j - 1].link_index != -1
    &&& words[j - 1].str.len() > 0
    &&& is_merge_punctuation(words[j].str[0])
}

/// Join word `j` to the word before it.
pub open spec fn merge_at(words: Seq<WordView>, j: int) -> Seq<WordView> {
    words.update(j - 1, WordView { str: words[j - 1].str + words[j].str, ..words[j - 1] }).remove(j)
}

/// From the last word down to the second, join punctuation to the linked word
/// before it.
pub open spec fn merge_down(words: Seq<WordView>, i: int) -> Seq<WordView>
    decreases i,
{
    if i <= 1 {
        words
    } else {
        let j = i - 1;
        merge_down(
            if mergeable(words, j) {
                merge_at(words, j)
            } else {
                words
            },
            j,
        )
    }
}

/// The word with its pixel width cached.
pub open spec fn with_width(glyphs: &GlyphTable, w: WordView) -> WordView {
    WordView { width_px: glyphs.spec_str_width(w.str) as i32, ..w }
}

/// What a markup text box holds: its words and links, and the state of its
/// layout.
#[verifier::ext_equal]
pub struct MtbView {
    pub words: Seq<WordView>,
    pub links: Seq<ManagedMarkupLink>,
    pub current_width: i32,
    pub max_y: i32,
    pub text_block: BlockView,
    pub current_row: Seq<FragmentView>,
    pub remain_width_px: i32,
    pub x_px: i32,
    pub y_val: i32,
    pub occupied_x: i32,
    pub word_x_start: i32,
    pub word_x_end: i32,
}

/// A freshly parsed box: never laid out.
pub open spec fn parsed_box(words: Seq<WordView>, links: Seq<ManagedMarkupLink>) -> MtbView {
    MtbView {
        words,
        links,
        current_width: 0,
        max_y: 0,
        text_block: BlockView { columns: 0, rows: Seq::empty() },
        current_row: Seq::empty(),
        remain_width_px: 0,
        x_px: 0,
        y_val: 0,
        occupied_x: 0,
        word_x_start: 0,
        word_x_end: 0,
    }
}

/// The words after the last commit and the punctuation joining.
pub open spec fn final_words(env: &MarkupEnv, st: ParseState) -> Seq<WordView> {
    let s1 = commit(env, st);
    merge_down(s1.words, s1.words.len() as int)
}

/// The finished box: empty markup gives a single line break.
pub open spec fn spec_finish(chars: Seq<char>, env: &MarkupEnv, st: ParseState) -> MtbView {
    if chars.len() == 0 {
        parsed_box(seq![flag_word(MARKUP_WORD_FLAG_NEWLINE)], Seq::empty())
    } else {
        parsed_box(
            final_words(env, st).map_values(|w: WordView| with_width(&env.glyphs, w)),
            commit(env, st).links,
        )
    }
}

/// Every word's pixel width fits an `i32`.
pub open spec fn widths_fit(env: &MarkupEnv, words: Seq<WordView>) -> bool {
    forall|k: int| 0 <= k < words.len() ==> env.glyphs.spec_str_width(#[trigger] words[k].str) <= i32::MAX
}

pub open spec fn spec_finish_ok(chars: Seq<char>, env: &MarkupEnv, st: ParseState) -> bool {
    chars.len() == 0 || widths_fit(env, final_words(env, st))
}

/// The state after parsing all of `chars` with key bindings from `keys`.
pub open spec fn spec_parse_state(chars: Seq<char>, env: &MarkupEnv, keys: Seq<(i32, Seq<char>)>) -> ParseState {
    drive(chars, env, keys, initial_state())
}

/// The box that parsing `chars` gives.
pub open spec fn spec_parse(chars: Seq<char>, env: &MarkupEnv, keys: Seq<(i32, Seq<char>)>) -> MtbView {
    spec_finish(chars, env, spec_parse_state(chars, env, keys))
}

/// The game can parse `chars`: no `[CHAR:..]` reads past the end, and every
/// word's pixel width fits an `i32`.
pub open spec fn spec_parsable(chars: Seq<char>, env: &MarkupEnv, keys: Seq<(i32, Seq<char>)>) -> bool {
    &&& !spec_parse_state(chars, env, keys).invalid
    &&& spec_finish_ok(chars, env, spec_parse_state(chars, env, keys))
}

pub open spec fn keys_view(keys: Seq<(i32, String)>) -> Seq<(i32, Seq<char>)> {
    keys.map_values(|k: (i32, String)| (k.0, k.1@))
}

/// Empty markup gives one line break and no links.
pub proof fn lemma_parse_empty(env: &MarkupEnv, keys: Seq<(i32, Seq<char>)>)
    ensures
        spec_parse(Seq::empty(), env, keys).words == seq![flag_word(MARKUP_WORD_FLAG_NEWLINE)],
        spec_parse(Seq::empty(), env, keys).links.len() == 0,
{
}

/// A parsed box is not laid out yet: no width, no rows, every word at the
/// origin with no columns.
pub proof fn lemma_parse_unplaced(chars: Seq<char>, env: &MarkupEnv, keys: Seq<(i32, Seq<char>)>)
    requires
        chars.len() <= MAX_MARKUP_CHARS,
    ensures
        spec_parse(chars, env, keys).current_width == 0,
        spec_parse(chars, env, keys).max_y == 0,
        spec_parse(chars, env, keys).text_block.rows.len() == 0,
        forall|q: int|
            0 <= q < spec_parse(chars, env, keys).words.len() ==> (#[trigger] spec_parse(chars, env, keys).words[q]).x
                == 0 && spec_parse(chars, env, keys).words[q].y == 0 && spec_parse(chars, env, keys).words[q].width == 0,
{
    lemma_parse_words_ok(chars, env, keys);
    let ws = spec_parse(chars, env, keys).words;
    assert forall|q: int| 0 <= q < ws.len() implies (#[trigger] ws[q]).x == 0 && ws[q].y == 0 && ws[q].width == 0 by {
        assert(word_unplaced(ws[q]));
    }
}

// ---------------------------------------------------------------------------
// What every parse keeps

/// A word links to a link of the box, to none (-1), or carries index 0 as
/// line breaks and key bindings do.
pub open spec fn word_link_ok(w: WordView, nlinks: int) -> bool {
    w.link_index == -1 || (0 <= w.link_index && (w.link_index < nlinks || w.link_index == 0))
}

/// A word carries no flag or exactly one of the line-break flags.
pub open spec fn word_flags_ok(w: WordView) -> bool {
    w.flags == 0 || w.flags == MARKUP_WORD_FLAG_NEWLINE || w.flags == MARKUP_WORD_FLAG_BLANK_LINE || w.flags
        == MARKUP_WORD_FLAG_INDENT
}

/// A word the layout has not placed yet.
pub open spec fn word_unplaced(w: WordView) -> bool {
    w.x == 0 && w.y == 0 && w.width == 0
}

pub open spec fn words_ok(words: Seq<WordView>, nlinks: int) -> bool {
    forall|j: int|
        0 <= j < words.len() ==> word_link_ok(#[trigger] words[j], nlinks) && word_flags_ok(words[j])
            && word_unplaced(words[j])
}

/// The parser's state refers only to links it has found.
pub open spec fn parse_ok(chars: Seq<char>, st: ParseState) -> bool {
    &&& st.link_index == -1 || 0 <= st.link_index < st.links.len()
    &&& words_ok(st.words, st.links.len() as int)
    &&& st.links.len() <= st.i <= 4 * chars.len() + 1
    &&& chars.len() <= MAX_MARKUP_CHARS
}

pub proof fn lemma_commit_ok(chars: Seq<char>, env: &MarkupEnv, st: ParseState)
    requires
        parse_ok(chars, st),
    ensures
        parse_ok(chars, commit(env, st)),
        commit(env, st).i == st.i,
        commit(env, st).links == st.links,
        commit(env, st).pending_key == st.pending_key,
{
    let s1 = commit(env, st);
    assert forall|j: int| 0 <= j < s1.words.len() implies word_link_ok(#[trigger] s1.words[j], s1.links.len() as int)
        && word_flags_ok(s1.words[j]) && word_unplaced(s1.words[j]) by {
        if j < st.words.len() {
            assert(s1.words[j] == st.words[j]);
        }
    }
}

pub proof fn lemma_use_char_ok(chars: Seq<char>, env: &MarkupEnv, st: ParseState, ch: char, literal: bool)
    requires
        parse_ok(chars, st),
    ensures
        parse_ok(chars, use_char(env, st, ch, literal)),
        use_char(env, st, ch, literal).i == st.i,
        use_char(env, st, ch, literal).links == st.links,
        use_char(env, st, ch, literal).pending_key == st.pending_key,
{
    let g = &env.glyphs;
    lemma_commit_ok(chars, env, st);
    let st1 = if spec_is_cjk(g, ch) && !spec_is_cjk_punctuation(ch) {
        commit(env, st)
    } else {
        st
    };
    lemma_commit_ok(chars, env, st1);
}

pub proof fn lemma_push_word_ok(chars: Seq<char>, st: ParseState, w: WordView)
    requires
        parse_ok(chars, st),
        word_link_ok(w, st.links.len() as int),
        word_flags_ok(w),
        word_unplaced(w),
    ensures
        words_ok(st.words.push(w), st.links.len() as int),
{
    assert forall|j: int| 0 <= j < st.words.push(w).len() implies word_link_ok(
        #[trigger] st.words.push(w)[j],
        st.links.len() as int,
    ) && word_flags_ok(st.words.push(w)[j]) && word_unplaced(st.words.push(w)[j]) by {
        if j < st.words.len() {
            assert(st.words.push(w)[j] == st.words[j]);
        }
    }
}

pub proof fn lemma_add_link_ok(chars: Seq<char>, st: ParseState, lt: LinkType, id: i32, subid: i32, i: int)
    requires
        parse_ok(chars, st),
        st.i + 4 <= i <= 4 * chars.len() + 1,
    ensures
        parse_ok(chars, at(add_link(st, lt, id, subid), i)),
{
    let s1 = add_link(st, lt, id, subid);
    assert forall|j: int| 0 <= j < s1.words.len() implies word_link_ok(#[trigger] s1.words[j], s1.links.len() as int)
        && word_flags_ok(s1.words[j]) && word_unplaced(s1.words[j]) by {
        assert(word_link_ok(st.words[j], st.links.len() as int));
    }
}

/// One step of the parser keeps it referring only to links it has found.
#[verifier::rlimit(50)]
pub proof fn lemma_step_ok(chars: Seq<char>, env: &MarkupEnv, st: ParseState)
    requires
        parse_ok(chars, st),
        can_step(chars, st),
    ensures
        parse_ok(chars, step(chars, env, st)),
{
    lemma_step_progress(chars, env, st);
    let s2 = step(chars, env, st);
    let c = chars[st.i];
    let a = st.i + 1;
    lemma_commit_ok(chars, env, st);
    let s1 = commit(env, st);
    if c == ']' {
        if a < chars.len() && chars[a] == ']' {
            lemma_use_char_ok(chars, env, st, ']', false);
        }
    } else if c == '[' {
        if a < chars.len() {
            let d = chars[a];
            if d == '.' || d == ':' || d == '?' || d == ' ' || d == '!' {
                lemma_use_char_ok(chars, env, st, d, true);
            } else if d == '[' {
                lemma_use_char_ok(chars, env, st, '[', false);
            } else {
                lemma_token_ok(chars, env, st, a);
            }
        }
    } else {
        lemma_use_char_ok(chars, env, st, c, false);
    }
}

#[verifier::rlimit(50)]
proof fn lemma_token_ok(chars: Seq<char>, env: &MarkupEnv, st: ParseState, pos: int)
    requires
        parse_ok(chars, st),
        can_step(chars, st),
        pos == st.i + 1,
        pos < chars.len(),
        step(chars, env, st) == step_token(chars, env, st, pos),
    ensures
        parse_ok(chars, step_token(chars, env, st, pos)),
{
    lemma_step_progress(chars, env, st);
    lemma_commit_ok(chars, env, st);
    let s1 = commit(env, st);
    let tok = spec_grab(chars, pos);
    let p = pos + tok.len();
    let kind = spec_token_kind(tok);
    let s2 = step_token(chars, env, st, pos);
    match kind {
        TokenKind::Char => {
            let a = p + 1;
            if a < chars.len() {
                let buff = spec_grab(chars, a);
                let b = a + buff.len();
                let token_char = if buff.len() > 1 && buff[0] == '~' {
                    buff[1]
                } else {
                    spec_char_code(unwrap_u32_or(spec_parse_u32(buff), 32))
                };
                if token_char == '\0' {
                    if b < chars.len() {
                        lemma_use_char_ok(chars, env, st, chars[b], true);
                    }
                } else {
                    lemma_use_char_ok(chars, env, st, token_char, true);
                }
            }
        },
        TokenKind::LinkPage => {
            let a = p + 1;
            if a < chars.len() {
                let bt = spec_grab(chars, a);
                let b = a + spec_utf8_len_seq(bt);
                let c = b + 1;
                if c < chars.len() {
                    let bid = spec_grab(chars, c);
                    let d = c + spec_utf8_len_seq(bid);
                    let lt = spec_link_type(bt);
                    let id = unwrap_i32_or(spec_parse_i32(bid), 0);
                    if lt == LinkType::ABSTRACT_BUILDING || lt == LinkType::ART_IMAGE {
                        let e = d + 1;
                        if e < chars.len() {
                            let bs = spec_grab(chars, e);
                            let f = e + spec_utf8_len_seq(bs);
                            lemma_add_link_ok(chars, st, lt, id, unwrap_i32_or(spec_parse_i32(bs), 0), f + 1);
                        }
                    } else {
                        lemma_add_link_ok(chars, st, lt, id, -1i32, d + 1);
                    }
                }
            }
        },
        TokenKind::NewLine => {
            lemma_push_word_ok(chars, s1, flag_word(MARKUP_WORD_FLAG_NEWLINE));
        },
        TokenKind::BlankLine => {
            lemma_push_word_ok(chars, s1, flag_word(MARKUP_WORD_FLAG_BLANK_LINE));
        },
        TokenKind::Indent => {
            lemma_push_word_ok(chars, s1, flag_word(MARKUP_WORD_FLAG_INDENT));
        },
        _ => {},
    }
}

pub proof fn lemma_run_ok(chars: Seq<char>, env: &MarkupEnv, st: ParseState)
    requires
        parse_ok(chars, st),
    ensures
        parse_ok(chars, run(chars, env, st)),
    decreases (if st.i < chars.len() {
        chars.len() - st.i
    } else {
        0
    }),
{
    if can_step(chars, st) {
        lemma_step_progress(chars, env, st);
        lemma_step_ok(chars, env, st);
        lemma_run_ok(chars, env, step(chars, env, st));
    }
}

pub proof fn lemma_drive_ok(chars: Seq<char>, env: &MarkupEnv, keys: Seq<(i32, Seq<char>)>, st: ParseState)
    requires
        parse_ok(chars, st),
    ensures
        parse_ok(chars, drive(chars, env, keys, st)),
    decreases (if st.i < chars.len() {
        chars.len() - st.i
    } else {
        0
    }),
{
    lemma_run_ok(chars, env, st);
    let s = run(chars, env, st);
    if let Some(b) = s.pending_key {
        if s.i > st.i && st.i < chars.len() {
            let s2 = provide_key(env, s, key_lookup(keys, b));
            lemma_push_word_ok(chars, s, key_word(key_lookup(keys, b), env.spec_color(CursesColor::LightGreen)));
            lemma_drive_ok(chars, env, keys, s2);
        }
    }
}

pub proof fn lemma_merge_down_ok(words: Seq<WordView>, i: int, nlinks: int)
    requires
        words_ok(words, nlinks),
        i <= words.len(),
    ensures
        words_ok(merge_down(words, i), nlinks),
    decreases i,
{
    if i > 1 {
        let j = i - 1;
        if mergeable(words, j) {
            let m = merge_at(words, j);
            assert forall|q: int|
                0 <= q < m.len() implies word_link_ok(#[trigger] m[q], nlinks) && word_flags_ok(m[q])
                && word_unplaced(m[q]) by {
                if q < j - 1 {
                    assert(m[q] == words[q]);
                } else if q == j - 1 {
                    assert(m[q].link_index == words[j - 1].link_index);
                    assert(m[q].flags == words[j - 1].flags);
                    assert(m[q].x == words[j - 1].x && m[q].y == words[j - 1].y && m[q].width == words[j - 1].width);
                } else {
                    assert(m[q] == words[q + 1]);
                }
            }
            lemma_merge_down_ok(m, j, nlinks);
        } else {
            lemma_merge_down_ok(words, j, nlinks);
        }
    }
}

/// Every word of a parsed box links to one of its links or to none (-1),
/// line breaks and key bindings carrying index 0, carries no flag or
/// exactly one line-break flag, and is not placed yet.
pub proof fn lemma_parse_words_ok(chars: Seq<char>, env: &MarkupEnv, keys: Seq<(i32, Seq<char>)>)
    requires
        chars.len() <= MAX_MARKUP_CHARS,
    ensures
        words_ok(spec_parse(chars, env, keys).words, spec_parse(chars, env, keys).links.len() as int),
{
    if chars.len() > 0 {
        let st = spec_parse_state(chars, env, keys);
        lemma_drive_ok(chars, env, keys, initial_state());
        lemma_commit_ok(chars, env, st);
        let s1 = commit(env, st);
        lemma_merge_down_ok(s1.words, s1.words.len() as int, s1.links.len() as int);
        let ws = final_words(env, st);
        let out = ws.map_values(|w: WordView| with_width(&env.glyphs, w));
        assert forall|q: int|
            0 <= q < out.len() implies word_link_ok(#[trigger] out[q], s1.links.len() as int) && word_flags_ok(out[q])
            && word_unplaced(out[q]) by {
            assert(word_link_ok(ws[q], s1.links.len() as int));
        }
    } else {
        let b = spec_parse(chars, env, keys);
        assert(b.words =~= seq![flag_word(MARKUP_WORD_FLAG_NEWLINE)]);
        assert forall|q: int|
            0 <= q < b.words.len() implies word_link_ok(#[trigger] b.words[q], b.links.len() as int)
            && word_flags_ok(b.words[q]) && word_unplaced(b.words[q]) by {
            assert(b.words[q] == flag_word(MARKUP_WORD_FLAG_NEWLINE));
        }
    }
}

// ---------------------------------------------------------------------------
// Layout

/// `a / b` as Rust computes it on integers: rounded toward zero.
pub open spec fn div_trunc(a: int, b: int) -> int {
    if a >= 0 {
        a / b
    } else {
        -((-a) / b)
    }
}

/// The width of a row of the box, in pixels.
pub open spec fn row_px(g: &GlyphTable, b: MtbView) -> int {
    b.current_width * g.orig_width
}

/// Start a new layout for `width` columns.
pub open spec fn reset_layout(g: &GlyphTable, b: MtbView, width: i32) -> MtbView {
    MtbView {
        current_width: width,
        max_y: 0,
        text_block: BlockView { columns: (width as usize) as nat, rows: Seq::empty() },
        current_row: Seq::empty(),
        remain_width_px: (width * g.orig_width) as i32,
        occupied_x: -1i32,
        x_px: 0,
        y_val: 0,
        ..b
    }
}

/// End the current row: nothing more fits in it.
pub open spec fn newline(b: MtbView) -> MtbView {
    MtbView { remain_width_px: 0, ..b }
}

/// Remove a trailing single-space fragment from the current row.
pub open spec fn drop_last_space(b: MtbView) -> MtbView {
    if b.current_row.len() > 0 && b.current_row.last().content == seq![' '] {
        let w = b.current_row.last().orig_width;
        MtbView {
            x_px: (b.x_px - w) as i32,
            remain_width_px: (b.remain_width_px + w) as i32,
            current_row: b.current_row.drop_last(),
            ..b
        }
    } else {
        b
    }
}

/// Move the current row, without its trailing space, into the block and start
/// the next one.
pub open spec fn push_row(g: &GlyphTable, b: MtbView) -> MtbView {
    let b1 = drop_last_space(b);
    MtbView {
        text_block: BlockView { rows: b1.text_block.rows.push(b1.current_row), ..b1.text_block },
        current_row: Seq::empty(),
        y_val: (b1.y_val + 1) as i32,
        occupied_x: -1i32,
        x_px: 0,
        remain_width_px: (b1.current_width * g.orig_width) as i32,
        ..b1
    }
}

/// Append a fragment to the current row.
pub open spec fn put_fragment(b: MtbView, f: FragmentView) -> MtbView {
    MtbView {
        x_px: (b.x_px + f.orig_width) as i32,
        remain_width_px: (b.remain_width_px - f.orig_width) as i32,
        current_row: b.current_row.push(f),
        ..b
    }
}

/// The fragment that draws a word.
pub open spec fn word_fragment(g: &GlyphTable, w: WordView) -> FragmentView {
    spec_fragment(g, w.str, ColorPair { foreground: w.color, background: black() })
}

/// Append a word to the current row and note the columns it covers: from the
/// column of its first pixel, but after the last word, to the column of its
/// last pixel, at least one column.
pub open spec fn put_word(g: &GlyphTable, b: MtbView, w: WordView) -> MtbView {
    let s0 = div_trunc(b.x_px as int, g.orig_width as int);
    let start = if s0 <= b.occupied_x {
        b.occupied_x + 1
    } else {
        s0
    };
    let b1 = put_fragment(b, word_fragment(g, w));
    let e0 = div_trunc(b1.x_px - 1, g.orig_width as int);
    let end = if e0 < start {
        start
    } else {
        e0
    };
    MtbView { word_x_start: start as i32, word_x_end: end as i32, occupied_x: end as i32, ..b1 }
}

/// Append `n` spaces to the current row.
pub open spec fn put_spaces(g: &GlyphTable, b: MtbView, n: nat) -> MtbView {
    put_fragment(b, spec_spaces_fragment(g, n))
}

/// Record the position the last `put_word` gave word `i`.
pub open spec fn place(b: MtbView, i: int) -> MtbView {
    MtbView {
        words: b.words.update(
            i,
            WordView {
                x: b.word_x_start,
                y: b.y_val,
                width: (b.word_x_end - b.word_x_start + 1) as i32,
                ..b.words[i]
            },
        ),
        ..b
    }
}

pub open spec fn raise_max_y(b: MtbView) -> MtbView {
    if b.max_y < b.y_val {
        MtbView { max_y: b.y_val, ..b }
    } else {
        b
    }
}

/// Punctuation that is kept on the line of the word before it.
pub open spec fn is_wrap_punctuation(c: char) -> bool {
    c == '.' || c == ',' || c == '?' || c == '!'
}

/// The word only breaks the line.
pub open spec fn is_break(w: WordView) -> bool {
    w.flags & MARKUP_WORD_FLAG_NEWLINE != 0 || w.flags & MARKUP_WORD_FLAG_BLANK_LINE != 0 || w.flags
        & MARKUP_WORD_FLAG_INDENT != 0
}

/// Start a new row before word `i` where it does not fit in the current one,
/// or where the single punctuation mark after it would not.
pub open spec fn wrap_for(g: &GlyphTable, b: MtbView, i: int) -> MtbView {
    let w = b.words[i];
    let next = b.words[i + 1];
    let b1 = if b.remain_width_px < w.width_px {
        push_row(g, b)
    } else {
        b
    };
    if i + 1 < b.words.len() && next.str.len() == 1 && b1.x_px > 0 && b1.remain_width_px < w.width_px
        + g.orig_width * 2 && is_wrap_punctuation(next.str[0]) {
        push_row(g, b1)
    } else {
        b1
    }
}

/// The space after word `i`, but none between two CJK characters.
pub open spec fn space_after(g: &GlyphTable, b: MtbView, i: int) -> MtbView {
    let w = b.words[i];
    let next = b.words[i + 1];
    let b1 = put_spaces(g, b, 1);
    if i + 1 < b.words.len() && w.str.len() > 0 && next.str.len() > 0 && spec_is_cjk(g, w.str.last())
        && spec_is_cjk(g, next.str[0]) {
        drop_last_space(b1)
    } else {
        b1
    }
}

/// The space after word `i` is dropped exactly where the word's last
/// character and the next word's first character are both CJK; anywhere
/// else, one space, one cell wide and in the default colors, follows the
/// word in its row.
pub proof fn lemma_space_after_word(g: &GlyphTable, b: MtbView, i: int)
    requires
        0 <= i < b.words.len(),
        i32::MIN <= b.x_px + g.orig_width <= i32::MAX,
        i32::MIN <= b.remain_width_px - g.orig_width <= i32::MAX,
    ensures
        ({
            let w = b.words[i];
            let both_cjk = i + 1 < b.words.len() && w.str.len() > 0 && b.words[i + 1].str.len() > 0 && spec_is_cjk(
                g,
                w.str.last(),
            ) && spec_is_cjk(g, b.words[i + 1].str[0]);
            let c = space_after(g, b, i);
            &&& c.words == b.words
            &&& c.y_val == b.y_val
            &&& both_cjk ==> c.current_row == b.current_row && c.x_px == b.x_px
            &&& !both_cjk ==> c.current_row == b.current_row.push(
                FragmentView {
                    content: seq![' '],
                    color_pair: ColorPair { foreground: Color { r: 0, g: 0, b: 0 }, background: Color { r: 0, g: 0, b: 0 } },
                    orig_width: g.orig_width,
                },
            ) && c.x_px == b.x_px + g.orig_width
        }),
{
    lemma_space_width(g);
    assert(spaces_seq(1) =~= seq![' ']);
    let b1 = put_spaces(g, b, 1);
    assert(b1.current_row.last().content == seq![' ']);
    assert(b1.current_row.drop_last() =~= b.current_row);
}

/// Lay out word `i`.
pub open spec fn layout_word(g: &GlyphTable, b: MtbView, i: int) -> MtbView {
    let w = b.words[i];
    if w.flags & MARKUP_WORD_FLAG_NEWLINE != 0 {
        newline(b)
    } else if w.flags & MARKUP_WORD_FLAG_BLANK_LINE != 0 {
        newline(push_row(g, b))
    } else if w.flags & MARKUP_WORD_FLAG_INDENT != 0 {
        put_spaces(g, push_row(g, b), 4)
    } else {
        let b2 = wrap_for(g, b, i);
        // a single punctuation mark stays right after the word before it
        let punct = w.str.len() == 1 && b2.x_px > 0 && is_wrap_punctuation(w.str[0]);
        let b3 = raise_max_y(place(put_word(g, b2, w), i));
        if punct {
            b3
        } else {
            space_after(g, b3, i)
        }
    }
}

/// The layout after words `0..k`.
pub open spec fn layout_prefix(g: &GlyphTable, b0: MtbView, k: nat) -> MtbView
    decreases k,
{
    if k == 0 {
        b0
    } else {
        layout_word(g, layout_prefix(g, b0, (k - 1) as nat), k - 1)
    }
}

/// The box laid out for `width` columns; a box already laid out for that
/// width is left as it is.
pub open spec fn spec_set_width(g: &GlyphTable, b: MtbView, width: i32) -> MtbView {
    if b.current_width == width {
        b
    } else {
        push_row(g, layout_prefix(g, reset_layout(g, b, width), b.words.len()))
    }
}

/// Laying out a word keeps the box's width and links.
pub proof fn lemma_layout_word_keeps(g: &GlyphTable, b: MtbView, i: int)
    requires
        0 <= i < b.words.len(),
    ensures
        layout_word(g, b, i).current_width == b.current_width,
        layout_word(g, b, i).links == b.links,
        layout_word(g, b, i).words.len() == b.words.len(),
{
}

pub proof fn lemma_layout_prefix_keeps(g: &GlyphTable, b: MtbView, k: nat)
    requires
        k <= b.words.len(),
    ensures
        layout_prefix(g, b, k).current_width == b.current_width,
        layout_prefix(g, b, k).links == b.links,
        layout_prefix(g, b, k).words.len() == b.words.len(),
    decreases k,
{
    if k > 0 {
        lemma_layout_prefix_keeps(g, b, (k - 1) as nat);
        lemma_layout_word_keeps(g, layout_prefix(g, b, (k - 1) as nat), k - 1);
    }
}

/// After `set_width` the box is laid out for that width, with the same links
/// and as many words; setting the same width again changes nothing.
pub proof fn lemma_set_width_idempotent(g: &GlyphTable, b: MtbView, width: i32)
    ensures
        spec_set_width(g, b, width).current_width == width,
        spec_set_width(g, b, width).links == b.links,
        spec_set_width(g, b, width).words.len() == b.words.len(),
        spec_set_width(g, spec_set_width(g, b, width), width) == spec_set_width(g, b, width),
{
    if b.current_width != width {
        lemma_layout_prefix_keeps(g, reset_layout(g, b, width), b.words.len());
    }
}

pub open spec fn iabs(x: int) -> int {
    if x < 0 {
        -x
    } else {
        x
    }
}

/// The most a word adds to the layout's pixel counts and rows.
pub open spec fn word_cost(g: &GlyphTable, w: WordView) -> int {
    g.spec_str_width(w.str) + iabs(w.width_px as int) + 8 * g.orig_width + 8
}

pub open spec fn layout_cost(g: &GlyphTable, words: Seq<WordView>, k: nat) -> int
    decreases k,
{
    if k == 0 {
        0
    } else {
        layout_cost(g, words, (k - 1) as nat) + word_cost(g, words[k - 1])
    }
}

/// Laying out the box for `width` stays within `i32` and divides by the cell
/// width only where it is positive.
pub open spec fn layout_fits(g: &GlyphTable, b: MtbView, width: i32) -> bool {
    b.current_width == width || {
        &&& g.orig_width > 0 || forall|j: int| 0 <= j < b.words.len() ==> is_break(#[trigger] b.words[j])
        &&& iabs(width * g.orig_width) + layout_cost(g, b.words, b.words.len()) + g.orig_width + 1
            <= i32::MAX
    }
}

/// The total width of a row's fragments.
pub open spec fn row_sum(r: Seq<FragmentView>) -> int
    decreases r.len(),
{
    if r.len() == 0 {
        0
    } else {
        row_sum(r.drop_last()) + r.last().orig_width
    }
}

pub open spec fn min0(x: int) -> int {
    if x < 0 {
        x
    } else {
        0
    }
}

pub open spec fn max0(x: int) -> int {
    if x < 0 {
        0
    } else {
        x
    }
}

/// The layout's counts are within a budget of `k`: every step adds at most
/// its cost, and the counts stay in `i32` while `k` does.
pub open spec fn within(g: &GlyphTable, b: MtbView, k: int) -> bool {
    let w = row_px(g, b);
    &&& g.wf()
    &&& 0 <= k
    &&& iabs(w) + k <= i32::MAX
    &&& 0 <= b.x_px <= k
    &&& b.x_px == row_sum(b.current_row)
    &&& min0(w) - b.x_px <= b.remain_width_px <= max0(w) + k
    &&& -1 <= b.occupied_x <= k
    &&& 0 <= b.y_val <= k
    &&& 0 <= b.max_y <= k
    &&& forall|j: int|
        0 <= j < b.current_row.len() ==> (#[trigger] b.current_row[j]).orig_width == g.spec_str_width(
            b.current_row[j].content,
        )
}

// ---------------------------------------------------------------------------
// The text box

/// A parsed markup text box: its words and links, and the layout of its words
/// for the width it was last given.
pub struct ManagedMarkupTextBox {
    pub word: Vec<ManagedMarkupWord>,
    link: Vec<ManagedMarkupLink>,
    current_width: i32,
    max_y: i32,
    text_block: TextBlock,
    current_row: TextRow,
    remain_width_px: i32,
    x_px: i32,
    y_val: i32,
    occupied_x: i32,
    word_x_start: i32,
    word_x_end: i32,
}

impl View for ManagedMarkupTextBox {
    type V = MtbView;

    closed spec fn view(&self) -> MtbView {
        MtbView {
            words: self.word@.map_values(|w: ManagedMarkupWord| w@),
            links: self.link@,
            current_width: self.current_width,
            max_y: self.max_y,
            text_block: self.text_block@,
            current_row: self.current_row@,
            remain_width_px: self.remain_width_px,
            x_px: self.x_px,
            y_val: self.y_val,
            occupied_x: self.occupied_x,
            word_x_start: self.word_x_start,
            word_x_end: self.word_x_end,
        }
    }
}

/// The display string of a key binding: the first one listed for it, empty
/// if none is.
pub fn key_display(key_displays: &Vec<(i32, String)>, binding: i32) -> (s: String)
    ensures
        s@ == key_lookup(keys_view(key_displays@), binding),
{
    let ghost kv = keys_view(key_displays@);
    proof {
        assert(kv.skip(0) =~= kv);
    }
    let mut i: usize = 0;
    while i < key_displays.len()
        invariant
            i <= key_displays@.len(),
            kv == keys_view(key_displays@),
            key_lookup(kv, binding) == key_lookup(kv.skip(i as int), binding),
        decreases key_displays@.len() - i,
    {
        proof {
            assert(kv.skip(i as int)[0] == (key_displays@[i as int].0, key_displays@[i as int].1@));
            assert(kv.skip(i as int).drop_first() =~= kv.skip(i as int + 1));
        }
        if key_displays[i].0 == binding {
            return key_displays[i].1.clone();
        }
        i += 1;
    }
    proof {
        assert(kv.skip(i as int) =~= Seq::<(i32, Seq<char>)>::empty());
    }
    String::new()
}

/// Run a parser over `content` to its end, answering each `[KEY:n]` token
/// from `key_displays`.
fn run_parser(content: &str, env: &MarkupEnv, key_displays: &Vec<(i32, String)>) -> (p: MarkupParser)
    requires
        env.wf(),
        content@.len() <= MAX_MARKUP_CHARS,
    ensures
        p.markup() == content@,
        p.state() == spec_parse_state(content@, env, keys_view(key_displays@)),
{
    let ghost kv = keys_view(key_displays@);
    let mut p = MarkupParser::new(content);
    loop
        invariant
            env.wf(),
            p.wf(),
            p.markup() == content@,
            p.state().pending_key is None,
            p.state().i <= 4 * content@.len() + 1,
            kv == keys_view(key_displays@),
            drive(content@, env, kv, p.state()) == spec_parse_state(content@, env, kv),
        decreases 4 * content@.len() + 1 - p.state().i,
    {
        let ghost st = p.state();
        match p.run(env) {
            None => {
                return p;
            },
            Some(b) => {
                proof {
                    lemma_run_pending(content@, env, st);
                }
                let d = key_display(key_displays, b);
                p.provide_key_display(env, d.as_str());
            },
        }
    }
}

impl ManagedMarkupTextBox {
    /// A box of parsed words and links that was never laid out.
    fn from_parts(word: Vec<ManagedMarkupWord>, link: Vec<ManagedMarkupLink>) -> (mtb: ManagedMarkupTextBox)
        ensures
            mtb@ == parsed_box(word@.map_values(|w: ManagedMarkupWord| w@), link@),
    {
        let mtb = ManagedMarkupTextBox {
            word,
            link,
            current_width: 0,
            max_y: 0,
            text_block: TextBlock::from_columns(0),
            current_row: TextRow::new(),
            remain_width_px: 0,
            x_px: 0,
            y_val: 0,
            occupied_x: 0,
            word_x_start: 0,
            word_x_end: 0,
        };
        proof {
            assert(mtb@ =~= parsed_box(mtb.word@.map_values(|w: ManagedMarkupWord| w@), mtb.link@));
        }
        mtb
    }

    /// Parse markup into a text box. `env` holds the palette and glyph metrics
    /// and `key_displays` the display string of each key binding.
    pub fn parse(content: &str, env: &MarkupEnv, key_displays: &Vec<(i32, String)>) -> (mtb: ManagedMarkupTextBox)
        requires
            env.wf(),
            content@.len() <= MAX_MARKUP_CHARS,
            spec_parsable(content@, env, keys_view(key_displays@)),
        ensures
            mtb@ == spec_parse(content@, env, keys_view(key_displays@)),
    {
        let p = run_parser(content, env, key_displays);
        match p.finish(env) {
            Some(m) => m,
            None => {
                proof {
                    assert(false);
                }
                ManagedMarkupTextBox::from_parts(Vec::new(), Vec::new())
            },
        }
    }

    /// Parse markup into a text box; `None` where the game's parser fails:
    /// a `[CHAR:..]` token that gives NUL ends the markup, or a word is too
    /// wide for an `i32` count of pixels.
    pub fn try_parse(content: &str, env: &MarkupEnv, key_displays: &Vec<(i32, String)>) -> (r: Option<
        ManagedMarkupTextBox,
    >)
        requires
            env.wf(),
            content@.len() <= MAX_MARKUP_CHARS,
        ensures
            r is Some <==> spec_parsable(content@, env, keys_view(key_displays@)),
            r matches Some(m) ==> m@ == spec_parse(content@, env, keys_view(key_displays@)),
    {
        let p = run_parser(content, env, key_displays);
        if p.invalid {
            return None;
        }
        p.finish(env)
    }
}


/// Dividing a column count by a positive cell width never gives more.
pub proof fn lemma_div_trunc_bound(x: int, d: int)
    requires
        x >= 0,
        d > 0,
    ensures
        div_trunc(x, d) <= x,
        div_trunc(x - 1, d) <= x,
        div_trunc(x, d) >= 0,
{
    assert(x / d <= x) by (nonlinear_arith)
        requires
            x >= 0,
            d > 0,
    ;
    assert(x / d >= 0) by (nonlinear_arith)
        requires
            x >= 0,
            d > 0,
    ;
    if x >= 1 {
        assert((x - 1) / d <= x - 1) by (nonlinear_arith)
            requires
                x - 1 >= 0,
                d > 0,
        ;
    } else {
        assert(1int / d >= 0) by (nonlinear_arith)
            requires
                d > 0,
        ;
    }
}

/// `b` is `a` with the same rows, row cursor column and words.
pub open spec fn keeps_rows(a: MtbView, b: MtbView) -> bool {
    &&& b.y_val == a.y_val
    &&& b.occupied_x == a.occupied_x
    &&& b.words == a.words
    &&& b.max_y == a.max_y
    &&& b.text_block == a.text_block
}

/// `b` is `a` with one more row.
pub open spec fn one_more_row(a: MtbView, b: MtbView) -> bool {
    &&& b.y_val == a.y_val + 1
    &&& b.occupied_x == -1
    &&& b.words == a.words
    &&& b.max_y == a.max_y
    &&& b.text_block.columns == a.text_block.columns
    &&& b.text_block.rows.len() == a.text_block.rows.len() + 1
}

/// The word takes part in the layout of the text: it is not a line break.
pub open spec fn is_text(w: WordView) -> bool {
    !is_break(w)
}

/// `a` comes before `c` in reading order, without overlapping it.
pub open spec fn in_order(a: WordView, c: WordView) -> bool {
    a.y < c.y || (a.y == c.y && a.x + a.width <= c.x)
}

/// Words `0..k` are placed in reading order, each at least one column wide,
/// none overlapping another, and the rows of the block are counted by
/// `y_val`.
pub open spec fn layout_ok(b: MtbView, k: int) -> bool {
    &&& 0 <= b.max_y <= b.y_val
    &&& b.text_block.rows.len() == b.y_val
    &&& forall|j: int|
        0 <= j < k && is_text(#[trigger] b.words[j]) ==> {
            &&& b.words[j].width >= 1
            &&& b.words[j].x >= 0
            &&& 0 <= b.words[j].y <= b.max_y
            &&& (b.words[j].y == b.y_val ==> b.words[j].x + b.words[j].width - 1 <= b.occupied_x)
        }
    &&& forall|j1: int, j2: int|
        0 <= j1 < j2 < k && is_text(#[trigger] b.words[j1]) && is_text(#[trigger] b.words[j2]) ==> in_order(
            b.words[j1],
            b.words[j2],
        )
}

/// A finished layout: every text word placed in reading order below the
/// last row that holds one.
pub open spec fn laid_out(b: MtbView) -> bool {
    &&& layout_ok(b, b.words.len() as int)
    &&& b.max_y < b.y_val
}

/// The greatest row of a text word among words `0..n`, and 0 where there is
/// none.
pub open spec fn max_text_y(words: Seq<WordView>, n: nat) -> int
    decreases n,
{
    if n == 0 {
        0
    } else {
        let m = max_text_y(words, (n - 1) as nat);
        if is_text(words[n - 1]) && words[n - 1].y > m {
            words[n - 1].y as int
        } else {
            m
        }
    }
}

/// The last row is 0 or the row of a text word among words `0..k`.
pub open spec fn max_y_reached(b: MtbView, k: int) -> bool {
    b.max_y == 0 || exists|j: int| 0 <= j < k && is_text(#[trigger] b.words[j]) && b.words[j].y == b.max_y
}

/// Laying out word `i` changes no other word, keeps each word text or not,
/// and leaves the last row as it was or at the row of word `i`.
proof fn lemma_layout_word_max_y(g: &GlyphTable, b: MtbView, i: int)
    requires
        0 <= i < b.words.len(),
    ensures
        layout_word(g, b, i).words.len() == b.words.len(),
        forall|j: int| 0 <= j < b.words.len() && j != i ==> #[trigger] layout_word(g, b, i).words[j] == b.words[j],
        is_text(layout_word(g, b, i).words[i]) == is_text(b.words[i]),
        layout_word(g, b, i).max_y == b.max_y || (is_text(b.words[i]) && layout_word(g, b, i).words[i].y
            == layout_word(g, b, i).max_y),
{
    let w = b.words[i];
    if is_text(w) {
        let b2 = wrap_for(g, b, i);
        assert(b2.words == b.words && b2.max_y == b.max_y);
        let b3 = raise_max_y(place(put_word(g, b2, w), i));
        assert(b3.words[i].flags == w.flags);
        assert(b3.max_y == b.max_y || b3.max_y == b3.words[i].y);
        let c = layout_word(g, b, i);
        assert(c.words == b3.words && c.max_y == b3.max_y);
    }
}

/// After words `0..k` are laid out from a box whose last row is 0, the last
/// row is 0 or the row of one of those words that is text.
proof fn lemma_prefix_max_y(g: &GlyphTable, b0: MtbView, k: nat)
    requires
        b0.max_y == 0,
        k <= b0.words.len(),
    ensures
        layout_prefix(g, b0, k).words.len() == b0.words.len(),
        max_y_reached(layout_prefix(g, b0, k), k as int),
    decreases k,
{
    if k > 0 {
        let k1 = (k - 1) as nat;
        lemma_prefix_max_y(g, b0, k1);
        let p = layout_prefix(g, b0, k1);
        let c = layout_prefix(g, b0, k);
        lemma_layout_word_max_y(g, p, k1 as int);
        assert(c == layout_word(g, p, k1 as int));
        if c.max_y != 0 {
            if c.max_y == p.max_y {
                let j = choose|j: int| 0 <= j < k1 && is_text(#[trigger] p.words[j]) && p.words[j].y == p.max_y;
                assert(c.words[j] == p.words[j]);
                assert(is_text(c.words[j]));
            } else {
                assert(is_text(c.words[k1 as int]));
            }
        }
    }
}

/// Every text word among words `0..n` is at or above `max_text_y`, which is at
/// most any bound of their rows that is not negative.
proof fn lemma_max_text_y_bounds(words: Seq<WordView>, n: nat, m: int)
    requires
        n <= words.len(),
        m >= 0,
        forall|j: int| 0 <= j < n && is_text(#[trigger] words[j]) ==> words[j].y <= m,
    ensures
        0 <= max_text_y(words, n) <= m,
        forall|j: int| 0 <= j < n && is_text(#[trigger] words[j]) ==> words[j].y <= max_text_y(words, n),
    decreases n,
{
    if n > 0 {
        lemma_max_text_y_bounds(words, (n - 1) as nat, m);
    }
}

/// Once the box is laid out for a new width, its last row is the greatest row
/// of a text word, or 0 where no word is text.
pub proof fn lemma_set_width_max_y(g: &GlyphTable, b: MtbView, width: i32)
    requires
        b.current_width != width,
        laid_out(spec_set_width(g, b, width)),
    ensures
        spec_set_width(g, b, width).max_y == max_text_y(
            spec_set_width(g, b, width).words,
            spec_set_width(g, b, width).words.len(),
        ),
{
    let b0 = reset_layout(g, b, width);
    let n = b.words.len();
    lemma_prefix_max_y(g, b0, n);
    let p = layout_prefix(g, b0, n);
    let c = spec_set_width(g, b, width);
    assert(c.words == p.words && c.max_y == p.max_y);
    assert(max_y_reached(c, n as int));
    lemma_max_text_y_bounds(c.words, n, c.max_y as int);
    if c.max_y != 0 {
        let j = choose|j: int| 0 <= j < n && is_text(#[trigger] c.words[j]) && c.words[j].y == c.max_y;
        assert(c.words[j].y <= max_text_y(c.words, n));
    }
}

pub proof fn lemma_layout_ok_keep(a: MtbView, b: MtbView, k: int)
    requires
        layout_ok(a, k),
        keeps_rows(a, b),
    ensures
        layout_ok(b, k),
{
}

pub proof fn lemma_layout_ok_row(a: MtbView, b: MtbView, k: int)
    requires
        layout_ok(a, k),
        one_more_row(a, b),
    ensures
        layout_ok(b, k),
{
}

pub proof fn lemma_layout_ok_skip(b: MtbView, i: int)
    requires
        layout_ok(b, i),
        0 <= i < b.words.len(),
        !is_text(b.words[i]),
    ensures
        layout_ok(b, i + 1),
{
}

/// Placing word `i` after the words before it keeps the layout in order.
pub proof fn lemma_layout_ok_place(a: MtbView, c: MtbView, i: int, start: int, end: int)
    requires
        layout_ok(a, i),
        0 <= i < a.words.len(),
        is_text(a.words[i]),
        start > a.occupied_x,
        start >= 0,
        end >= start,
        c.y_val == a.y_val,
        c.occupied_x == end,
        c.text_block == a.text_block,
        c.max_y == (if a.max_y < a.y_val {
            a.y_val
        } else {
            a.max_y
        }),
        c.words == a.words.update(i, WordView { x: start as i32, y: a.y_val, width: c.words[i].width, ..a.words[i] }),
        c.words[i].width == end - start + 1,
    ensures
        layout_ok(c, i + 1),
{
    assert forall|j: int| 0 <= j < i + 1 && is_text(#[trigger] c.words[j]) implies {
        &&& c.words[j].width >= 1
        &&& c.words[j].x >= 0
        &&& 0 <= c.words[j].y <= c.max_y
        &&& (c.words[j].y == c.y_val ==> c.words[j].x + c.words[j].width - 1 <= c.occupied_x)
    } by {
        if j < i {
            assert(c.words[j] == a.words[j]);
        }
    }
    assert forall|j1: int, j2: int|
        0 <= j1 < j2 < i + 1 && is_text(#[trigger] c.words[j1]) && is_text(#[trigger] c.words[j2]) implies in_order(
        c.words[j1],
        c.words[j2],
    ) by {
        assert(c.words[j1] == a.words[j1]);
        if j2 < i {
            assert(c.words[j2] == a.words[j2]);
        }
    }
}

/// A space is one cell wide.
pub proof fn lemma_space_width(g: &GlyphTable)
    ensures
        g.spec_str_width(seq![' ']) == g.orig_width,
{
    let s = seq![' '];
    assert(s.drop_last() =~= Seq::<char>::empty());
    assert(g.spec_str_width(Seq::<char>::empty()) == 0);
    assert(s.last() == ' ');
    assert(spec_cp437_codepoint(' ') == 32);
    assert(g.spec_orig_width(' ') == g.orig_width);
}

/// A row whose fragments have their strings' widths has a non-negative width.
pub proof fn lemma_row_sum_nonneg(g: &GlyphTable, r: Seq<FragmentView>)
    requires
        g.wf(),
        forall|j: int| 0 <= j < r.len() ==> (#[trigger] r[j]).orig_width == g.spec_str_width(r[j].content),
    ensures
        row_sum(r) >= 0,
    decreases r.len(),
{
    if r.len() > 0 {
        assert(r.last() == r[r.len() - 1]);
        g.lemma_str_width_nonneg(r.last().content);
        assert forall|j: int| 0 <= j < r.drop_last().len() implies (#[trigger] r.drop_last()[j]).orig_width
            == g.spec_str_width(r.drop_last()[j].content) by {
            assert(r.drop_last()[j] == r[j]);
        }
        lemma_row_sum_nonneg(g, r.drop_last());
    }
}

impl ManagedMarkupTextBox {
    fn insert_newline(&mut self, g: &GlyphTable, Ghost(k): Ghost<int>)
        requires
            within(g, old(self)@, k),
        ensures
            final(self)@ == newline(old(self)@),
            within(g, final(self)@, k),
            keeps_rows(old(self)@, final(self)@),
    {
        self.remain_width_px = 0;
        proof {
            assert(self@ =~= newline(old(self)@));
        }
    }

    fn remove_last_space(&mut self, g: &GlyphTable, Ghost(k): Ghost<int>)
        requires
            within(g, old(self)@, k),
            iabs(row_px(g, old(self)@)) + k + g.orig_width <= i32::MAX,
        ensures
            final(self)@ == drop_last_space(old(self)@),
            within(g, final(self)@, k + g.orig_width),
            keeps_rows(old(self)@, final(self)@),
    {
        let n = self.current_row.len();
        if n > 0 {
            let last = self.current_row.get(n - 1);
            if last.is_single_space() {
                let w = last.orig_width();
                let ghost r = old(self)@.current_row;
                proof {
                    assert(r.last() == r[n - 1]);
                    lemma_space_width(g);
                    assert(w == g.orig_width);
                    assert forall|j: int| 0 <= j < r.drop_last().len() implies (
                    #[trigger] r.drop_last()[j]).orig_width == g.spec_str_width(r.drop_last()[j].content) by {
                        assert(r.drop_last()[j] == r[j]);
                    }
                    lemma_row_sum_nonneg(g, r.drop_last());
                }
                self.x_px = self.x_px - w;
                self.remain_width_px = self.remain_width_px + w;
                self.current_row.pop();
                proof {
                    assert(self@ =~= drop_last_space(old(self)@));
                }
            }
        }
    }

    fn push_current_row(&mut self, g: &GlyphTable, Ghost(k): Ghost<int>)
        requires
            within(g, old(self)@, k),
            iabs(row_px(g, old(self)@)) + k + g.orig_width + 1 <= i32::MAX,
        ensures
            final(self)@ == push_row(g, old(self)@),
            within(g, final(self)@, k + g.orig_width + 1),
            one_more_row(old(self)@, final(self)@),
    {
        self.remove_last_space(g, Ghost(k));
        let ghost b1 = self@;
        let mut row = TextRow::new();
        core::mem::swap(&mut row, &mut self.current_row);
        self.text_block.push(row);
        self.y_val = self.y_val + 1;
        self.occupied_x = -1;
        self.x_px = 0;
        proof {
            assert(iabs(self.current_width * g.orig_width) <= i32::MAX);
        }
        self.remain_width_px = self.current_width * g.orig_width;
        proof {
            assert(self@.current_row =~= Seq::<FragmentView>::empty());
            assert(self@ =~= push_row(g, old(self)@));
        }
    }

    fn insert_fragment(&mut self, g: &GlyphTable, f: TextFragment, Ghost(k): Ghost<int>)
        requires
            within(g, old(self)@, k),
            f@.orig_width == g.spec_str_width(f@.content),
            iabs(row_px(g, old(self)@)) + k + f@.orig_width <= i32::MAX,
        ensures
            final(self)@ == put_fragment(old(self)@, f@),
            within(g, final(self)@, k + f@.orig_width),
            keeps_rows(old(self)@, final(self)@),
    {
        proof {
            g.lemma_str_width_nonneg(f@.content);
        }
        let w = f.orig_width();
        let ghost fv = f@;
        self.x_px = self.x_px + w;
        self.remain_width_px = self.remain_width_px - w;
        self.current_row.push(f);
        proof {
            let r = self@.current_row;
            assert(r.drop_last() =~= old(self)@.current_row);
            assert(r.last() == fv);
            assert forall|j: int| 0 <= j < r.len() implies (#[trigger] r[j]).orig_width == g.spec_str_width(
                r[j].content,
            ) by {
                if j < r.len() - 1 {
                    assert(r[j] == old(self)@.current_row[j]);
                }
            }
            assert(self@ =~= put_fragment(old(self)@, fv));
        }
    }

    fn insert_spaces(&mut self, g: &GlyphTable, count: usize, Ghost(k): Ghost<int>)
        requires
            within(g, old(self)@, k),
            count <= 4,
            iabs(row_px(g, old(self)@)) + k + count * g.orig_width <= i32::MAX,
        ensures
            final(self)@ == put_spaces(g, old(self)@, count as nat),
            within(g, final(self)@, k + count * g.orig_width),
            keeps_rows(old(self)@, final(self)@),
    {
        proof {
            crate::text::lemma_spaces_width(g, count as nat);
            assert(count * g.orig_width <= 4 * g.orig_width) by (nonlinear_arith)
                requires
                    count <= 4,
                    g.orig_width >= 0,
            ;
        }
        let f = TextFragment::spaces(g, count);
        self.insert_fragment(g, f, Ghost(k));
    }

    fn insert_word(&mut self, g: &GlyphTable, w: &ManagedMarkupWord, Ghost(k): Ghost<int>)
        requires
            within(g, old(self)@, k),
            g.orig_width > 0,
            iabs(row_px(g, old(self)@)) + k + g.spec_str_width(w@.str) + 1 <= i32::MAX,
        ensures
            final(self)@ == put_word(g, old(self)@, w@),
            within(g, final(self)@, k + g.spec_str_width(w@.str) + 1),
            0 <= final(self)@.word_x_start <= final(self)@.word_x_end <= k + g.spec_str_width(w@.str) + 1,
            final(self)@.y_val == old(self)@.y_val,
            final(self)@.words == old(self)@.words,
            final(self)@.max_y == old(self)@.max_y,
            final(self)@.text_block == old(self)@.text_block,
            final(self)@.word_x_start > old(self)@.occupied_x,
            final(self)@.word_x_start >= 0,
            final(self)@.word_x_end >= final(self)@.word_x_start,
            final(self)@.occupied_x == final(self)@.word_x_end,
    {
        proof {
            g.lemma_str_width_nonneg(w@.str);
        }
        let frag = TextFragment::new(g, w.str.clone(), ColorPair::new_foreground(w.color));
        let ow = g.orig_width;
        proof {
            assert(frag@ == word_fragment(g, w@));
            lemma_div_trunc_bound(self.x_px as int, ow as int);
        }
        let s0 = self.x_px / ow;
        let start = if s0 <= self.occupied_x {
            self.occupied_x + 1
        } else {
            s0
        };
        self.insert_fragment(g, frag, Ghost(k));
        proof {
            lemma_div_trunc_bound(self.x_px as int, ow as int);
        }
        let e0 = (self.x_px - 1) / ow;
        let end = if e0 < start {
            start
        } else {
            e0
        };
        self.word_x_start = start;
        self.word_x_end = end;
        self.occupied_x = end;
        proof {
            assert(self@ =~= put_word(g, old(self)@, w@));
        }
    }
}


/// `b` has the words of `a`, up to their positions.
pub open spec fn same_words(a: Seq<WordView>, b: Seq<WordView>) -> bool {
    &&& a.len() == b.len()
    &&& forall|j: int|
        0 <= j < a.len() ==> (#[trigger] b[j]) == (WordView { x: b[j].x, y: b[j].y, width: b[j].width, ..a[j] })
}

/// A budget that holds for `k` holds for any larger `k` that still fits.
pub proof fn lemma_within_grow(g: &GlyphTable, b: MtbView, k: int, k2: int)
    requires
        within(g, b, k),
        k <= k2,
        iabs(row_px(g, b)) + k2 <= i32::MAX,
    ensures
        within(g, b, k2),
{
}

/// The cost of a prefix of the words grows with the prefix.
pub proof fn lemma_layout_cost_mono(g: &GlyphTable, words: Seq<WordView>, i: nat, n: nat)
    requires
        g.wf(),
        i <= n <= words.len(),
    ensures
        0 <= layout_cost(g, words, i) <= layout_cost(g, words, n),
    decreases n,
{
    if n > 0 {
        g.lemma_str_width_nonneg(words[n - 1].str);
        if i < n {
            lemma_layout_cost_mono(g, words, i, (n - 1) as nat);
        } else {
            lemma_layout_cost_mono(g, words, (n - 1) as nat, (n - 1) as nat);
        }
    }
}

fn is_wrap_punctuation_exec(c: char) -> (b: bool)
    ensures
        b == is_wrap_punctuation(c),
{
    c == '.' || c == ',' || c == '?' || c == '!'
}

impl ManagedMarkupTextBox {
    fn reset_text_block(&mut self, g: &GlyphTable, width: i32)
        requires
            g.wf(),
            iabs(width * g.orig_width) <= i32::MAX,
        ensures
            final(self)@ == reset_layout(g, old(self)@, width),
            within(g, final(self)@, 0),
    {
        self.current_width = width;
        self.max_y = 0;
        self.text_block = TextBlock::from_columns(width as usize);
        self.current_row = TextRow::new();
        self.remain_width_px = width * g.orig_width;
        self.occupied_x = -1;
        self.x_px = 0;
        self.y_val = 0;
        proof {
            assert(self@ =~= reset_layout(g, old(self)@, width));
        }
    }

    fn place_word(&mut self, i: usize)
        requires
            i < old(self)@.words.len(),
            0 <= old(self).word_x_start <= old(self).word_x_end < i32::MAX,
        ensures
            final(self)@ == place(old(self)@, i as int),
            final(self).word@.len() == old(self).word@.len(),
            final(self)@.words[i as int] == (WordView {
                x: old(self)@.word_x_start,
                y: old(self)@.y_val,
                width: (old(self)@.word_x_end - old(self)@.word_x_start + 1) as i32,
                ..old(self)@.words[i as int]
            }),
    {
        let width = self.word_x_end - self.word_x_start + 1;
        let mut w = self.word.remove(i);
        w.x = self.word_x_start;
        w.y = self.y_val;
        w.width = width;
        self.word.insert(i, w);
        proof {
            assert(self@.words =~= place(old(self)@, i as int).words);
            assert(self@ =~= place(old(self)@, i as int));
        }
    }

    fn wrap_for_word(&mut self, g: &GlyphTable, i: usize, Ghost(k): Ghost<int>)
        requires
            within(g, old(self)@, k),
            i < old(self)@.words.len(),
            iabs(row_px(g, old(self)@)) + k + 2 * g.orig_width + 2 + iabs(
                old(self)@.words[i as int].width_px as int,
            ) <= i32::MAX,
        ensures
            final(self)@ == wrap_for(g, old(self)@, i as int),
            within(g, final(self)@, k + 2 * g.orig_width + 2),
            final(self)@.words == old(self)@.words,
            final(self).word@.len() == old(self).word@.len(),
            layout_ok(old(self)@, i as int) ==> layout_ok(final(self)@, i as int),
    {
        let ow = g.orig_width;
        let width_px = self.word[i].width_px;
        let n = self.word.len();
        let mut k1: Ghost<int> = Ghost(k);
        if self.remain_width_px < width_px {
            self.push_current_row(g, Ghost(k));
            k1 = Ghost(k + ow + 1);
            proof {
                if layout_ok(old(self)@, i as int) {
                    lemma_layout_ok_row(old(self)@, self@, i as int);
                }
            }
        }
        let ghost b1 = self@;
        if i + 1 < n && self.word[i + 1].str.len() == 1 && self.x_px > 0 && self.remain_width_px < width_px
            + ow * 2 && is_wrap_punctuation_exec(self.word[i + 1].str[0]) {
            self.push_current_row(g, k1);
            k1 = Ghost(k1@ + ow + 1);
            proof {
                if layout_ok(b1, i as int) {
                    lemma_layout_ok_row(b1, self@, i as int);
                }
            }
        }
        proof {
            lemma_within_grow(g, self@, k1@, k + 2 * ow + 2);
        }
    }

    fn space_after_word(&mut self, g: &GlyphTable, i: usize, Ghost(k): Ghost<int>)
        requires
            within(g, old(self)@, k),
            i < old(self)@.words.len(),
            iabs(row_px(g, old(self)@)) + k + 2 * g.orig_width <= i32::MAX,
        ensures
            final(self)@ == space_after(g, old(self)@, i as int),
            within(g, final(self)@, k + 2 * g.orig_width),
            final(self)@.words == old(self)@.words,
            final(self).word@.len() == old(self).word@.len(),
            keeps_rows(old(self)@, final(self)@),
    {
        let ow = g.orig_width;
        self.insert_spaces(g, 1, Ghost(k));
        let n = self.word.len();
        if i + 1 < n && self.word[i].str.len() > 0 && self.word[i + 1].str.len() > 0 {
            let last = self.word[i].str[self.word[i].str.len() - 1];
            let first = self.word[i + 1].str[0];
            if is_cjk(g, last) && is_cjk(g, first) {
                let ghost a = self@;
                self.remove_last_space(g, Ghost(k + ow));
                return;
            }
        }
        proof {
            lemma_within_grow(g, self@, k + ow, k + 2 * ow);
        }
    }

    /// Lay out word `i`.
    fn layout_word_at(&mut self, g: &GlyphTable, i: usize, Ghost(k): Ghost<int>)
        requires
            within(g, old(self)@, k),
            i < old(self)@.words.len(),
            g.orig_width > 0 || is_break(old(self)@.words[i as int]),
            iabs(row_px(g, old(self)@)) + k + word_cost(g, old(self)@.words[i as int]) <= i32::MAX,
        ensures
            final(self)@ == layout_word(g, old(self)@, i as int),
            within(g, final(self)@, k + word_cost(g, old(self)@.words[i as int])),
            same_words(old(self)@.words, final(self)@.words),
            final(self)@.current_width == old(self)@.current_width,
            layout_ok(old(self)@, i as int) ==> layout_ok(final(self)@, i + 1),
            forall|j: int|
                0 <= j < old(self)@.words.len() && (j != i || !is_text(old(self)@.words[i as int]))
                    ==> #[trigger] final(self)@.words[j] == old(self)@.words[j],
    {
        let ghost b0 = self@;
        let ghost cost = word_cost(g, b0.words[i as int]);
        let ow = g.orig_width;
        let flags = self.word[i].flags;
        proof {
            g.lemma_str_width_nonneg(b0.words[i as int].str);
        }
        if flags & MARKUP_WORD_FLAG_NEWLINE != 0 {
            self.insert_newline(g, Ghost(k));
            proof {
                lemma_within_grow(g, self@, k, k + cost);
                if layout_ok(b0, i as int) {
                    lemma_layout_ok_keep(b0, self@, i as int);
                    lemma_layout_ok_skip(self@, i as int);
                }
            }
        } else if flags & MARKUP_WORD_FLAG_BLANK_LINE != 0 {
            self.push_current_row(g, Ghost(k));
            let ghost b1 = self@;
            self.insert_newline(g, Ghost(k + ow + 1));
            proof {
                lemma_within_grow(g, self@, k + ow + 1, k + cost);
                if layout_ok(b0, i as int) {
                    lemma_layout_ok_row(b0, b1, i as int);
                    lemma_layout_ok_keep(b1, self@, i as int);
                    lemma_layout_ok_skip(self@, i as int);
                }
            }
        } else if flags & MARKUP_WORD_FLAG_INDENT != 0 {
            self.push_current_row(g, Ghost(k));
            let ghost b1 = self@;
            self.insert_spaces(g, 4, Ghost(k + ow + 1));
            proof {
                lemma_within_grow(g, self@, k + ow + 1 + 4 * ow, k + cost);
                if layout_ok(b0, i as int) {
                    lemma_layout_ok_row(b0, b1, i as int);
                    lemma_layout_ok_keep(b1, self@, i as int);
                    lemma_layout_ok_skip(self@, i as int);
                }
            }
        } else {
            self.layout_text_word(g, i, Ghost(k));
        }
    }

    fn layout_text_word(&mut self, g: &GlyphTable, i: usize, Ghost(k): Ghost<int>)
        requires
            within(g, old(self)@, k),
            i < old(self)@.words.len(),
            is_text(old(self)@.words[i as int]),
            g.orig_width > 0,
            iabs(row_px(g, old(self)@)) + k + word_cost(g, old(self)@.words[i as int]) <= i32::MAX,
        ensures
            ({
                let b = old(self)@;
                let w = b.words[i as int];
                let b2 = wrap_for(g, b, i as int);
                let b3 = raise_max_y(place(put_word(g, b2, w), i as int));
                final(self)@ == if w.str.len() == 1 && b2.x_px > 0 && is_wrap_punctuation(w.str[0]) {
                    b3
                } else {
                    space_after(g, b3, i as int)
                }
            }),
            within(g, final(self)@, k + word_cost(g, old(self)@.words[i as int])),
            same_words(old(self)@.words, final(self)@.words),
            final(self)@.current_width == old(self)@.current_width,
            layout_ok(old(self)@, i as int) ==> layout_ok(final(self)@, i + 1),
            final(self)@.words == old(self)@.words.update(i as int, final(self)@.words[i as int]),
    {
        let ghost b0 = self@;
        let ghost cost = word_cost(g, b0.words[i as int]);
        let ow = g.orig_width;
        let cur = self.word[i].duplicate();
        proof {
            assert(cur@ == b0.words[i as int]);
            g.lemma_str_width_nonneg(cur@.str);
        }
        self.wrap_for_word(g, i, Ghost(k));
        let ghost a1 = self@;
        let ghost k1 = k + 2 * ow + 2;
        let punct = cur.str.len() == 1 && self.x_px > 0 && is_wrap_punctuation_exec(cur.str[0]);
        self.insert_word(g, &cur, Ghost(k1));
        let ghost a2 = self@;
        let ghost k2 = k1 + g.spec_str_width(cur@.str) + 1;
        self.place_word(i);
        if self.max_y < self.y_val {
            self.max_y = self.y_val;
        }
        proof {
            assert(self@.words =~= b0.words.update(i as int, self@.words[i as int]));
            if layout_ok(b0, i as int) {
                assert(layout_ok(a1, i as int));
                assert(self@.words[i as int].width == a2.word_x_end - a2.word_x_start + 1);
                assert(self@.words =~= a1.words.update(
                    i as int,
                    WordView {
                        x: a2.word_x_start as i32,
                        y: a1.y_val,
                        width: self@.words[i as int].width,
                        ..a1.words[i as int]
                    },
                ));
                lemma_layout_ok_place(a1, self@, i as int, a2.word_x_start as int, a2.word_x_end as int);
            }
        }
        let ghost a4 = self@;
        if punct {
            proof {
                lemma_within_grow(g, self@, k2, k + cost);
            }
        } else {
            self.space_after_word(g, i, Ghost(k2));
            proof {
                lemma_within_grow(g, self@, k2 + 2 * ow, k + cost);
                if layout_ok(a4, i + 1) {
                    lemma_layout_ok_keep(a4, self@, i + 1);
                }
            }
        }
    }

    /// Whether laying the box out for `width` stays within `i32` and divides
    /// by the cell width only where it is positive.
    pub fn fits_width(&self, g: &GlyphTable, width: i32) -> (b: bool)
        requires
            g.wf(),
        ensures
            b == layout_fits(g, self@, width),
    {
        if self.current_width == width {
            return true;
        }
        let ow = g.orig_width as i64;
        proof {
            assert(-0x8000_0000 * 0x100_0000 <= (width as int) * (ow as int) <= 0x8000_0000 * 0x100_0000)
                by (nonlinear_arith)
                requires
                    -0x8000_0000 <= width <= 0x7fff_ffff,
                    0 <= ow <= 0x100_0000,
            ;
        }
        let w = (width as i64) * ow;
        let aw: i64 = if w < 0 {
            -w
        } else {
            w
        };
        let ghost words = self@.words;
        let n = self.word.len();
        let mut total: i64 = 0;
        let mut all_breaks = true;
        let mut i: usize = 0;
        while i < n
            invariant
                g.wf(),
                n == words.len(),
                words == self@.words,
                self@.current_width != width,
                ow == g.orig_width,
                aw == iabs(width * g.orig_width),
                0 <= aw <= 0x80_0000_0000_0000,
                i <= n,
                total == layout_cost(g, words, i as nat),
                0 <= total <= i32::MAX,
                all_breaks == (forall|j: int| 0 <= j < i ==> is_break(#[trigger] words[j])),
            decreases n - i,
        {
            let wd = &self.word[i];
            proof {
                assert(words[i as int] == wd@);
            }
            proof {
                assert(layout_cost(g, words, (i + 1) as nat) == layout_cost(g, words, i as nat) + word_cost(
                    g,
                    words[i as int],
                ));
                g.lemma_str_width_nonneg(wd@.str);
            }
            match str_width_checked(g, &wd.str) {
                None => {
                    proof {
                        lemma_layout_cost_mono(g, words, (i + 1) as nat, n as nat);
                        assert(layout_cost(g, words, (i + 1) as nat) > i32::MAX);
                    }
                    return false;
                },
                Some(sw) => {
                    let wp = wd.width_px as i64;
                    let awp: i64 = if wp < 0 {
                        -wp
                    } else {
                        wp
                    };
                    let cost = sw as i64 + awp + 8 * ow + 8;
                    total = total + cost;
                    if total > 0x7fff_ffff {
                        proof {
                            lemma_layout_cost_mono(g, words, (i + 1) as nat, n as nat);
                        }
                        return false;
                    }
                    let fl = wd.flags;
                    let brk = fl & MARKUP_WORD_FLAG_NEWLINE != 0 || fl & MARKUP_WORD_FLAG_BLANK_LINE != 0 || fl
                        & MARKUP_WORD_FLAG_INDENT != 0;
                    if !brk {
                        all_breaks = false;
                    }
                },
            }
            i += 1;
        }
        let fits = aw + total + ow + 1 <= 0x7fff_ffff;
        fits && (ow > 0 || all_breaks)
    }

    /// Lay the words out in rows of `width` columns: each word after the
    /// last, a space between words, a new row where a word does not fit.
    /// A box already laid out for `width` is left as it is.
    pub fn set_width(&mut self, g: &GlyphTable, width: i32)
        requires
            g.wf(),
            layout_fits(g, old(self)@, width),
        ensures
            final(self)@ == spec_set_width(g, old(self)@, width),
            old(self)@.current_width != width ==> laid_out(final(self)@),
            old(self)@.current_width != width ==> final(self)@.max_y == max_text_y(
                final(self)@.words,
                final(self)@.words.len(),
            ),
            same_words(old(self)@.words, final(self)@.words),
            forall|j: int|
                0 <= j < old(self)@.words.len() && !is_text(old(self)@.words[j]) ==> #[trigger] final(self)@.words[j]
                    == old(self)@.words[j],
    {
        if self.current_width == width {
            return;
        }
        let ghost ws0 = self@.words;
        let n = self.word.len();
        proof {
            lemma_layout_cost_mono(g, ws0, 0, n as nat);
        }
        self.reset_text_block(g, width);
        let ghost b0 = self@;
        let mut i: usize = 0;
        while i < n
            invariant
                g.wf(),
                i <= n,
                n == ws0.len(),
                b0.words == ws0,
                self@ == layout_prefix(g, b0, i as nat),
                layout_ok(self@, i as int),
                within(g, self@, layout_cost(g, ws0, i as nat)),
                same_words(ws0, self@.words),
                forall|j: int| 0 <= j < n && !is_text(ws0[j]) ==> #[trigger] self@.words[j] == ws0[j],
                self@.current_width == width,
                iabs(width * g.orig_width) + layout_cost(g, ws0, n as nat) + g.orig_width + 1 <= i32::MAX,
                g.orig_width > 0 || forall|j: int| 0 <= j < ws0.len() ==> is_break(#[trigger] ws0[j]),
            decreases n - i,
        {
            proof {
                lemma_layout_cost_mono(g, ws0, (i + 1) as nat, n as nat);
                assert(self@.words[i as int] == (WordView {
                    x: self@.words[i as int].x,
                    y: self@.words[i as int].y,
                    width: self@.words[i as int].width,
                    ..ws0[i as int]
                }));
                assert(word_cost(g, self@.words[i as int]) == word_cost(g, ws0[i as int]));
                assert(g.orig_width > 0 || is_break(ws0[i as int]));
            }
            self.layout_word_at(g, i, Ghost(layout_cost(g, ws0, i as nat)));
            proof {
                assert forall|j: int| 0 <= j < ws0.len() implies (#[trigger] self@.words[j]) == (WordView {
                    x: self@.words[j].x,
                    y: self@.words[j].y,
                    width: self@.words[j].width,
                    ..ws0[j]
                }) by {
                }
            }
            i += 1;
        }
        proof {
            lemma_layout_cost_mono(g, ws0, n as nat, n as nat);
        }
        let ghost last = self@;
        self.push_current_row(g, Ghost(layout_cost(g, ws0, n as nat)));
        proof {
            lemma_layout_ok_row(last, self@, n as int);
            lemma_set_width_max_y(g, old(self)@, width);
        }
    }
}


/// What the game's text box takes of a word: the bytes it draws, its link,
/// its position and its flags.
pub struct MtbWordSync {
    pub text: Vec<u8>,
    pub link_index: i32,
    pub px: i32,
    pub py: i32,
    pub flags: u32,
}

/// The bytes the game draws for a word: its CP437 codepoints, or, with
/// `fill`, a placeholder 'z' for each column the word covers.
pub open spec fn sync_text(w: WordView, fill: bool) -> Seq<u8> {
    if fill {
        Seq::new(w.width as nat, |i: int| 122u8)
    } else {
        w.str.map_values(|c: char| spec_cp437_codepoint(c))
    }
}

fn fill_placeholder(n: i32) -> (v: Vec<u8>)
    requires
        n >= 0,
    ensures
        v@ == Seq::new(n as nat, |i: int| 122u8),
{
    let mut v: Vec<u8> = Vec::new();
    let mut i: i32 = 0;
    while i < n
        invariant
            0 <= i <= n,
            v@ == Seq::new(i as nat, |j: int| 122u8),
        decreases n - i,
    {
        v.push(122u8);
        i += 1;
        proof {
            assert(v@ =~= Seq::new(i as nat, |j: int| 122u8));
        }
    }
    v
}

impl ManagedMarkupTextBox {
    /// The words as the game's text box takes them, in order.
    pub fn sync_words(&self, fill: bool) -> (out: Vec<MtbWordSync>)
        requires
            fill ==> forall|j: int| 0 <= j < self@.words.len() ==> (#[trigger] self@.words[j]).width >= 0,
        ensures
            out@.len() == self@.words.len(),
            forall|j: int|
                0 <= j < out@.len() ==> {
                    &&& (#[trigger] out@[j]).text@ == sync_text(self@.words[j], fill)
                    &&& out@[j].link_index == self@.words[j].link_index
                    &&& out@[j].px == self@.words[j].x
                    &&& out@[j].py == self@.words[j].y
                    &&& out@[j].flags == self@.words[j].flags
                },
    {
        let mut out: Vec<MtbWordSync> = Vec::new();
        let mut i: usize = 0;
        while i < self.word.len()
            invariant
                i <= self.word@.len(),
                fill ==> forall|j: int| 0 <= j < self@.words.len() ==> (#[trigger] self@.words[j]).width >= 0,
                out@.len() == i,
                forall|j: int|
                    0 <= j < i ==> {
                        &&& (#[trigger] out@[j]).text@ == sync_text(self@.words[j], fill)
                        &&& out@[j].link_index == self@.words[j].link_index
                        &&& out@[j].px == self@.words[j].x
                        &&& out@[j].py == self@.words[j].y
                        &&& out@[j].flags == self@.words[j].flags
                    },
            decreases self.word@.len() - i,
        {
            let w = &self.word[i];
            proof {
                assert(self@.words[i as int] == w@);
            }
            let text = if fill {
                fill_placeholder(w.width)
            } else {
                string_to_cp437_codepoints(chars_to_string(&w.str).as_str())
            };
            out.push(MtbWordSync { text, link_index: w.link_index, px: w.x, py: w.y, flags: w.flags });
            i += 1;
        }
        out
    }

    /// The width the box was last laid out for.
    pub fn current_width(&self) -> (w: i32)
        ensures
            w == self@.current_width,
    {
        self.current_width
    }

    /// The last row that holds a word.
    pub fn max_y(&self) -> (y: i32)
        ensures
            y == self@.max_y,
    {
        self.max_y
    }

    /// The links of the box.
    pub fn links(&self) -> (l: &Vec<ManagedMarkupLink>)
        ensures
            l@ == self@.links,
    {
        &self.link
    }

    /// The laid-out text.
    pub fn text_block(&self) -> (b: TextBlock)
        ensures
            b@ == self@.text_block,
    {
        self.text_block.duplicate()
    }

    pub fn duplicate(&self) -> (m: ManagedMarkupTextBox)
        ensures
            m@ == self@,
    {
        let mut word: Vec<ManagedMarkupWord> = Vec::new();
        let mut i: usize = 0;
        while i < self.word.len()
            invariant
                i <= self.word@.len(),
                word@.len() == i,
                forall|j: int| 0 <= j < i ==> (#[trigger] word@[j])@ == self.word@[j]@,
            decreases self.word@.len() - i,
        {
            word.push(self.word[i].duplicate());
            i += 1;
        }
        let mut link: Vec<ManagedMarkupLink> = Vec::new();
        let mut i: usize = 0;
        while i < self.link.len()
            invariant
                i <= self.link@.len(),
                link@ == self.link@.take(i as int),
            decreases self.link@.len() - i,
        {
            proof {
                assert(self.link@.take(i as int + 1) =~= self.link@.take(i as int).push(self.link@[i as int]));
            }
            link.push(self.link[i]);
            i += 1;
        }
        proof {
            assert(self.link@.take(self.link@.len() as int) =~= self.link@);
        }
        let m = ManagedMarkupTextBox {
            word,
            link,
            current_width: self.current_width,
            max_y: self.max_y,
            text_block: self.text_block.duplicate(),
            current_row: self.current_row.duplicate(),
            remain_width_px: self.remain_width_px,
            x_px: self.x_px,
            y_val: self.y_val,
            occupied_x: self.occupied_x,
            word_x_start: self.word_x_start,
            word_x_end: self.word_x_end,
        };
        proof {
            assert(m@.words =~= self@.words);
            assert(m@ =~= self@);
        }
        m
    }
}

// ---------------------------------------------------------------------------
// The parser

/// A markup parser that stops at each `[KEY:n]` token so that the caller can
/// look up the key binding's display string.
pub struct MarkupParser {
    chars: Vec<char>,
    i: usize,
    cur: Vec<char>,
    link_index: i32,
    color: CursesColor,
    words: Vec<ManagedMarkupWord>,
    links: Vec<ManagedMarkupLink>,
    done: bool,
    pending_key: Option<i32>,
    invalid: bool,
}

impl MarkupParser {
    /// The markup being parsed.
    pub closed spec fn markup(&self) -> Seq<char> {
        self.chars@
    }

    /// The parser's state.
    pub closed spec fn state(&self) -> ParseState {
        ParseState {
            i: self.i as int,
            cur: self.cur@,
            link_index: self.link_index,
            color: self.color,
            words: self.words@.map_values(|w: ManagedMarkupWord| w@),
            links: self.links@,
            done: self.done,
            pending_key: self.pending_key,
            invalid: self.invalid,
        }
    }

    pub closed spec fn wf(&self) -> bool {
        &&& self.chars@.len() <= MAX_MARKUP_CHARS
        &&& self.i <= 4 * self.chars@.len() + 1
        &&& self.links@.len() <= self.i
    }

    proof fn lemma_state_eq(&self, st: ParseState)
        requires
            self.i as int == st.i,
            self.cur@ == st.cur,
            self.link_index == st.link_index,
            self.color == st.color,
            self.words@.map_values(|w: ManagedMarkupWord| w@) =~= st.words,
            self.links@ == st.links,
            self.done == st.done,
            self.pending_key == st.pending_key,
            self.invalid == st.invalid,
        ensures
            self.state() == st,
    {
    }

    /// A parser at the start of `content`.
    pub fn new(content: &str) -> (p: MarkupParser)
        requires
            content@.len() <= MAX_MARKUP_CHARS,
        ensures
            p.wf(),
            p.markup() == content@,
            p.state() == initial_state(),
    {
        let p = MarkupParser {
            chars: string_to_chars(content),
            i: 0,
            cur: Vec::new(),
            link_index: -1i32,
            color: CursesColor::White,
            words: Vec::new(),
            links: Vec::new(),
            done: false,
            pending_key: None,
            invalid: false,
        };
        proof {
            p.lemma_state_eq(initial_state());
        }
        p
    }

    fn push_word(&mut self, w: ManagedMarkupWord)
        ensures
            final(self).state() == (ParseState { words: old(self).state().words.push(w@), ..old(self).state() }),
            final(self).chars@ == old(self).chars@,
            final(self).i == old(self).i,
            final(self).links@ == old(self).links@,
    {
        let ghost wv = w@;
        self.words.push(w);
        proof {
            self.lemma_state_eq(ParseState { words: old(self).state().words.push(wv), ..old(self).state() });
        }
    }

    /// Commit the collected characters as a word.
    fn commit(&mut self, env: &MarkupEnv)
        requires
            env.wf(),
        ensures
            final(self).state() == commit(env, old(self).state()),
            final(self).chars@ == old(self).chars@,
            final(self).i == old(self).i,
            final(self).links@ == old(self).links@,
    {
        if self.cur.len() > 0 {
            let color = env.palette[self.color.index()];
            let w = ManagedMarkupWord::from_view_parts(self.cur.clone(), color, self.link_index, 0);
            proof {
                assert(w@ == text_word(old(self).cur@, old(self).link_index, env.spec_color(old(self).color)));
            }
            self.push_word(w);
            self.cur = Vec::new();
            proof {
                self.lemma_state_eq(commit(env, old(self).state()));
            }
        }
    }

    fn use_char(&mut self, env: &MarkupEnv, ch: char, no_split_space: bool)
        requires
            env.wf(),
        ensures
            final(self).state() == use_char(env, old(self).state(), ch, no_split_space),
            final(self).chars@ == old(self).chars@,
            final(self).i == old(self).i,
            final(self).links@ == old(self).links@,
    {
        let ghost st = old(self).state();
        if is_cjk(&env.glyphs, ch) && !is_cjk_punctuation(ch) {
            self.commit(env);
        }
        let ghost st1 = self.state();
        if ch != ' ' || no_split_space {
            if self.cur.len() > 0 {
                let last = self.cur[self.cur.len() - 1];
                if is_cjk(&env.glyphs, last) && !is_cjk_punctuation(ch) {
                    self.commit(env);
                }
            }
            let ghost st2 = self.state();
            self.cur.push(ch);
            proof {
                self.lemma_state_eq(ParseState { cur: st2.cur.push(ch), ..st2 });
            }
        } else {
            self.commit(env);
        }
    }

    fn set_position(&mut self, i: usize)
        ensures
            final(self).state() == at(old(self).state(), i as int),
            final(self).chars@ == old(self).chars@,
            final(self).i == i,
            final(self).links@ == old(self).links@,
    {
        self.i = i;
        proof {
            self.lemma_state_eq(at(old(self).state(), i as int));
        }
    }

    fn stop_at(&mut self, i: usize)
        ensures
            final(self).state() == stop(old(self).state(), i as int),
            final(self).chars@ == old(self).chars@,
            final(self).i == i,
            final(self).links@ == old(self).links@,
    {
        self.i = i;
        self.done = true;
        proof {
            self.lemma_state_eq(stop(old(self).state(), i as int));
        }
    }

    /// Grab the token at `pos` and the position after it, skipped by UTF-8 length.
    fn grab_utf8(&self, pos: usize) -> (r: (Vec<char>, usize))
        requires
            self.wf(),
            pos < self.chars@.len(),
        ensures
            r.0@ == spec_grab(self.chars@, pos as int),
            r.1 == pos + spec_utf8_len_seq(r.0@),
            r.1 <= 4 * self.chars@.len(),
    {
        let t = grab_token_string_pos(&self.chars, pos);
        proof {
            lemma_grab_len(self.chars@, pos as int);
        }
        let n = utf8_len_chars(&t);
        (t, pos + n)
    }

    fn step_char_token(&mut self, env: &MarkupEnv, p: usize)
        requires
            env.wf(),
            old(self).wf(),
            p <= old(self).chars@.len(),
        ensures
            final(self).state() == step_char_token(old(self).chars@, env, old(self).state(), p as int),
            final(self).chars@ == old(self).chars@,
            final(self).links@ == old(self).links@,
    {
        let a = p + 1;
        if a >= self.chars.len() {
            self.stop_at(a);
            return;
        }
        let buff = grab_token_string_pos(&self.chars, a);
        proof {
            lemma_grab_len(self.chars@, a as int);
        }
        let b = a + buff.len();
        let token_char = if buff.len() > 1 && buff[0] == '~' {
            buff[1]
        } else {
            let code = match parse_u32(&buff) {
                Some(v) => v,
                None => 32,
            };
            char_of_code(code)
        };
        if token_char == '\0' {
            if b >= self.chars.len() {
                self.i = b;
                self.done = true;
                self.invalid = true;
                proof {
                    self.lemma_state_eq(ParseState { i: b as int, done: true, invalid: true, ..old(self).state() });
                }
            } else {
                let ch = self.chars[b];
                self.use_char(env, ch, true);
                self.set_position(b + 1);
            }
        } else {
            self.use_char(env, token_char, true);
            self.set_position(b + 1);
        }
    }

    fn add_link(&mut self, lt: LinkType, id: i32, subid: i32)
        requires
            old(self).wf(),
        ensures
            final(self).state() == add_link(old(self).state(), lt, id, subid),
            final(self).chars@ == old(self).chars@,
            final(self).i == old(self).i,
            final(self).links@.len() <= old(self).links@.len() + 1,
    {
        if lt != LinkType::NONE {
            let n = self.links.len();
            self.links.push(ManagedMarkupLink::new(lt, id, subid));
            self.link_index = n as i32;
            proof {
                self.lemma_state_eq(add_link(old(self).state(), lt, id, subid));
            }
        }
    }

    fn step_link_page(&mut self, p: usize)
        requires
            old(self).wf(),
            p <= old(self).chars@.len(),
        ensures
            final(self).state() == step_link_page(old(self).chars@, old(self).state(), p as int),
            final(self).chars@ == old(self).chars@,
    {
        let len = self.chars.len();
        let a = p + 1;
        if a >= len {
            self.stop_at(a);
            return;
        }
        let (bt, b) = self.grab_utf8(a);
        let c = b + 1;
        if c >= len {
            self.stop_at(c);
            return;
        }
        let (bid, d) = self.grab_utf8(c);
        let lt = link_type_of(&bt);
        let id = match parse_i32(&bid) {
            Some(v) => v,
            None => 0,
        };
        if lt == LinkType::ABSTRACT_BUILDING || lt == LinkType::ART_IMAGE {
            let e = d + 1;
            if e >= len {
                self.stop_at(e);
                return;
            }
            let (bs, f) = self.grab_utf8(e);
            let subid = match parse_i32(&bs) {
                Some(v) => v,
                None => 0,
            };
            self.add_link(lt, id, subid);
            self.set_position(f + 1);
        } else {
            self.add_link(lt, id, -1);
            self.set_position(d + 1);
        }
    }

    fn step_color(&mut self, env: &MarkupEnv, p: usize)
        requires
            env.wf(),
            old(self).wf(),
            p <= old(self).chars@.len(),
        ensures
            final(self).state() == step_color(old(self).chars@, env, old(self).state(), p as int),
            final(self).chars@ == old(self).chars@,
            final(self).links@ == old(self).links@,
    {
        self.commit(env);
        let len = self.chars.len();
        let a = p + 1;
        if a >= len {
            self.stop_at(a);
            return;
        }
        let (b1, b) = self.grab_utf8(a);
        let c = b + 1;
        if c >= len {
            self.stop_at(c);
            return;
        }
        let (_b2, d) = self.grab_utf8(c);
        let e = d + 1;
        if e >= len {
            self.stop_at(e);
            return;
        }
        let (b3, f) = self.grab_utf8(e);
        let var_lit = vec!['V', 'A', 'R'];
        proof {
            assert(var_lit@ == seq!['V', 'A', 'R']);
        }
        let is_var = chars_equal(&b1, &var_lit);
        let foreground: i32 = if is_var {
            7
        } else {
            match parse_i32(&b1) {
                Some(v) => v,
                None => 7,
            }
        };
        let bright = if is_var {
            true
        } else {
            let b3v: i32 = match parse_i32(&b3) {
                Some(v) => v,
                None => 1,
            };
            b3v != 0
        };
        let ghost s1 = self.state();
        self.color = CursesColor::from_i32(foreground).with_bright(bright);
        self.i = f + 1;
        proof {
            self.lemma_state_eq(
                ParseState {
                    color: CursesColor::spec_from_i32(foreground).spec_with_bright(bright),
                    i: f + 1,
                    ..s1
                },
            );
        }
    }

    fn step_key(&mut self, env: &MarkupEnv, p: usize)
        requires
            env.wf(),
            old(self).wf(),
            p <= old(self).chars@.len(),
        ensures
            final(self).state() == step_key(old(self).chars@, env, old(self).state(), p as int),
            final(self).chars@ == old(self).chars@,
            final(self).links@ == old(self).links@,
    {
        self.commit(env);
        let a = p + 1;
        if a >= self.chars.len() {
            self.stop_at(a);
            return;
        }
        let (buff, b) = self.grab_utf8(a);
        let binding = match parse_i32(&buff) {
            Some(v) => v,
            None => 0,
        };
        let ghost s1 = self.state();
        self.pending_key = Some(binding);
        self.i = b + 1;
        proof {
            self.lemma_state_eq(ParseState { pending_key: Some(binding), i: b + 1, ..s1 });
        }
    }

    fn step_var(&mut self, p: usize)
        requires
            old(self).wf(),
            p <= old(self).chars@.len(),
        ensures
            final(self).state() == step_var(old(self).chars@, old(self).state(), p as int),
            final(self).chars@ == old(self).chars@,
            final(self).links@ == old(self).links@,
    {
        let len = self.chars.len();
        let a = p + 1;
        if a >= len {
            self.stop_at(a);
            return;
        }
        let (_g1, b) = self.grab_utf8(a);
        let c = b + 1;
        if c >= len {
            self.stop_at(c);
            return;
        }
        let (_g2, d) = self.grab_utf8(c);
        let e = d + 1;
        if e >= len {
            self.stop_at(e);
            return;
        }
        let (_g3, f) = self.grab_utf8(e);
        self.set_position(f + 1);
    }

    fn step_flag(&mut self, env: &MarkupEnv, flags: u32, p: usize)
        requires
            env.wf(),
            p <= old(self).chars@.len(),
            old(self).wf(),
        ensures
            final(self).state() == step_flag(env, old(self).state(), flags, p as int),
            final(self).chars@ == old(self).chars@,
            final(self).links@ == old(self).links@,
    {
        self.commit(env);
        let ghost s1 = self.state();
        let empty: Vec<char> = Vec::new();
        proof {
            assert(empty@ =~= Seq::<char>::empty());
        }
        self.push_word(ManagedMarkupWord::from_view_parts(empty, Color::black(), 0, flags));
        self.i = p + 1;
        proof {
            self.lemma_state_eq(ParseState { words: s1.words.push(flag_word(flags)), i: p + 1, ..s1 });
        }
    }

    fn step_token(&mut self, env: &MarkupEnv, pos: usize)
        requires
            env.wf(),
            old(self).wf(),
            pos < old(self).chars@.len(),
        ensures
            final(self).state() == step_token(old(self).chars@, env, old(self).state(), pos as int),
            final(self).chars@ == old(self).chars@,
    {
        let tok = grab_token_string_pos(&self.chars, pos);
        proof {
            lemma_grab_len(self.chars@, pos as int);
        }
        let p = pos + tok.len();
        match token_kind(&tok) {
            TokenKind::Char => self.step_char_token(env, p),
            TokenKind::LinkPage => self.step_link_page(p),
            TokenKind::EndLinkPage => {
                self.commit(env);
                let ghost s1 = self.state();
                self.link_index = -1;
                self.i = p + 1;
                proof {
                    self.lemma_state_eq(ParseState { link_index: -1i32, i: p + 1, ..s1 });
                }
            },
            TokenKind::Color => self.step_color(env, p),
            TokenKind::Key => self.step_key(env, p),
            TokenKind::Var => self.step_var(p),
            TokenKind::NewLine => self.step_flag(env, MARKUP_WORD_FLAG_NEWLINE, p),
            TokenKind::BlankLine => self.step_flag(env, MARKUP_WORD_FLAG_BLANK_LINE, p),
            TokenKind::Indent => self.step_flag(env, MARKUP_WORD_FLAG_INDENT, p),
            TokenKind::Other => self.set_position(p + 1),
        }
    }

    fn step(&mut self, env: &MarkupEnv)
        requires
            env.wf(),
            old(self).wf(),
            can_step(old(self).chars@, old(self).state()),
        ensures
            final(self).state() == step(old(self).chars@, env, old(self).state()),
            final(self).chars@ == old(self).chars@,
            final(self).wf(),
    {
        let len = self.chars.len();
        let c = self.chars[self.i];
        let a = self.i + 1;
        if c == ']' {
            if a >= len {
                self.stop_at(a);
            } else if self.chars[a] != ']' {
                self.set_position(a);
            } else {
                self.use_char(env, ']', false);
                self.set_position(a + 1);
            }
        } else if c == '[' {
            if a >= len {
                self.stop_at(a);
            } else {
                let d = self.chars[a];
                if d == '.' || d == ':' || d == '?' || d == ' ' || d == '!' {
                    self.use_char(env, d, true);
                    self.set_position(a + 1);
                } else if d == '[' {
                    self.use_char(env, '[', false);
                    self.set_position(a + 1);
                } else {
                    self.step_token(env, a);
                }
            }
        } else {
            self.use_char(env, c, false);
            self.set_position(a);
        }
        proof {
            lemma_step_progress(old(self).chars@, env, old(self).state());
        }
    }

    /// Parse until the markup ends or a `[KEY:n]` token waits for its display
    /// string; returns the waiting binding.
    pub fn run(&mut self, env: &MarkupEnv) -> (pending: Option<i32>)
        requires
            env.wf(),
            old(self).wf(),
        ensures
            final(self).wf(),
            final(self).markup() == old(self).markup(),
            final(self).state() == run(old(self).markup(), env, old(self).state()),
            pending == final(self).state().pending_key,
    {
        while !self.done && self.i < self.chars.len() && self.pending_key.is_none()
            invariant
                env.wf(),
                self.wf(),
                self.chars@ == old(self).chars@,
                run(self.chars@, env, self.state()) == run(self.chars@, env, old(self).state()),
            decreases (if (self.i as int) < self.chars@.len() {
                self.chars@.len() - self.i
            } else {
                0
            }),
        {
            proof {
                lemma_step_progress(self.chars@, env, self.state());
            }
            self.step(env);
        }
        self.pending_key
    }

    /// The binding a `[KEY:n]` token waits for, if any.
    pub fn pending_key(&self) -> (b: Option<i32>)
        ensures
            b == self.state().pending_key,
    {
        self.pending_key
    }

    /// Answer the waiting `[KEY:n]` token with the binding's display string.
    pub fn provide_key_display(&mut self, env: &MarkupEnv, display: &str)
        requires
            env.wf(),
            old(self).wf(),
        ensures
            final(self).wf(),
            final(self).markup() == old(self).markup(),
            final(self).state() == provide_key(env, old(self).state(), display@),
    {
        let color = env.palette[CursesColor::LightGreen.index()];
        let w = ManagedMarkupWord::from_view_parts(string_to_chars(display), color, 0, 0);
        self.push_word(w);
        let ghost s1 = self.state();
        self.pending_key = None;
        proof {
            self.lemma_state_eq(provide_key(env, old(self).state(), display@));
        }
    }

    /// Commit the last word, join punctuation to the linked words before it
    /// and cache each word's pixel width: the parsed text box, or `None` where
    /// a word is too wide for an `i32` count of pixels.
    pub fn finish(self, env: &MarkupEnv) -> (r: Option<ManagedMarkupTextBox>)
        requires
            env.wf(),
        ensures
            r is Some <==> spec_finish_ok(self.markup(), env, self.state()),
            r matches Some(m) ==> m@ == spec_finish(self.markup(), env, self.state()),
    {
        if self.chars.len() == 0 {
            let empty: Vec<char> = Vec::new();
            proof {
                assert(empty@ =~= Seq::<char>::empty());
            }
            let mut words: Vec<ManagedMarkupWord> = Vec::new();
            words.push(ManagedMarkupWord::from_view_parts(empty, Color::black(), 0, MARKUP_WORD_FLAG_NEWLINE));
            let m = ManagedMarkupTextBox::from_parts(words, Vec::new());
            proof {
                assert(m@.words =~= seq![flag_word(MARKUP_WORD_FLAG_NEWLINE)]);
                assert(m@.links =~= Seq::<ManagedMarkupLink>::empty());
            }
            return Some(m);
        }
        let ghost st = self.state();
        let mut p = self;
        p.commit(env);
        let mut words = p.words;
        let links = p.links;
        let ghost ws0 = words@.map_values(|w: ManagedMarkupWord| w@);
        let mut i = words.len();
        while i > 1
            invariant
                i <= words@.len(),
                merge_down(words@.map_values(|w: ManagedMarkupWord| w@), i as int) == merge_down(
                    ws0,
                    ws0.len() as int,
                ),
            decreases i,
        {
            let ghost before = words@.map_values(|w: ManagedMarkupWord| w@);
            i -= 1;
            let merge = words[i].link_index == -1 && words[i].str.len() > 0 && words[i - 1].link_index
                != -1 && words[i - 1].str.len() > 0 && is_merge_punctuation_exec(words[i].str[0]);
            proof {
                assert(before[i as int] == words@[i as int]@);
                assert(before[i as int - 1] == words@[i as int - 1]@);
                assert(merge == mergeable(before, i as int));
            }
            if merge {
                let cur = words.remove(i);
                let prev = words.remove(i - 1);
                let joined = prev.appended(&cur);
                words.insert(i - 1, joined);
                proof {
                    assert(words@.map_values(|w: ManagedMarkupWord| w@) =~= merge_at(before, i as int));
                }
            }
        }
        let ghost merged = words@.map_values(|w: ManagedMarkupWord| w@);
        proof {
            assert(merged == final_words(env, st));
        }
        let mut out: Vec<ManagedMarkupWord> = Vec::new();
        let mut k: usize = 0;
        while k < words.len()
            invariant
                k <= words@.len(),
                env.wf(),
                merged == words@.map_values(|w: ManagedMarkupWord| w@),
                merged == final_words(env, st),
                self.markup().len() > 0,
                self.state() == st,
                out@.len() == k,
                forall|j: int| 0 <= j < k ==> (#[trigger] out@[j])@ == with_width(&env.glyphs, merged[j]),
                forall|j: int| 0 <= j < k ==> env.glyphs.spec_str_width(#[trigger] merged[j].str) <= i32::MAX,
            decreases words@.len() - k,
        {
            match words[k].with_cached_width(&env.glyphs) {
                Some(w) => {
                    out.push(w);
                },
                None => {
                    proof {
                        assert(merged[k as int] == words@[k as int]@);
                        assert(env.glyphs.spec_str_width(merged[k as int].str) > i32::MAX);
                        assert(!widths_fit(env, merged));
                    }
                    return None;
                },
            }
            k += 1;
        }
        let m = ManagedMarkupTextBox::from_parts(out, links);
        proof {
            assert(widths_fit(env, merged));
            assert(m@.words =~= merged.map_values(|w: WordView| with_width(&env.glyphs, w)));
        }
        Some(m)
    }
}

} // verus!
