use dfi18n::color::CursesColor;
use dfi18n::glyph::GlyphTable;
use dfi18n::markup::{
    LinkType, ManagedMarkupTextBox, MarkupEnv, MarkupParser, MARKUP_WORD_FLAG_BLANK_LINE, MARKUP_WORD_FLAG_INDENT,
    MARKUP_WORD_FLAG_NEWLINE,
};
use dfi18n::types::Color;

fn palette_color(i: u8) -> Color {
    Color { r: i * 10, g: i * 10 + 1, b: i * 10 + 2 }
}

fn env() -> MarkupEnv {
    MarkupEnv {
        palette: (0..16u8).map(palette_color).collect(),
        glyphs: GlyphTable {
            orig_width: 8,
            orig_height: 12,
            curses_width: 8,
            curses_height: 12,
            glyphs: vec![('汉', 16, 16), ('字', 16, 16), ('ā', 9, 13)],
        },
    }
}

fn parse(s: &str) -> ManagedMarkupTextBox {
    ManagedMarkupTextBox::parse(s, &env(), &vec![])
}

fn texts(m: &ManagedMarkupTextBox) -> Vec<String> {
    m.word.iter().map(|w| w.text()).collect()
}

#[test]
fn parse_colors_example() {
    let m = parse("Light gray, [C:4:0:0]red, [C:4:0:1]orange, [C:7:0:0]light gray.");
    assert_eq!(texts(&m), vec!["Light", "gray,", "red,", "orange,", "light", "gray."]);
    let colors: Vec<Color> = m.word.iter().map(|w| w.color()).collect();
    assert_eq!(
        colors,
        vec![
            palette_color(7),
            palette_color(7),
            palette_color(4),
            palette_color(12),
            palette_color(7),
            palette_color(7)
        ]
    );
    for w in &m.word {
        assert_eq!(w.link_index(), -1);
        assert_eq!(w.flags(), 0);
    }
    assert_eq!(m.word[0].width_px(), 40);
    assert_eq!(m.word[3].width_px(), 56);
}

#[test]
fn parse_char_tokens() {
    let m = parse("[CHAR:154]");
    assert_eq!(texts(&m), vec!["Ü"]);
    let m = parse("A[CHAR:~ ]B");
    assert_eq!(texts(&m), vec!["A B"]);
    let m = parse("x[CHAR:zz]y");
    assert_eq!(texts(&m), vec!["x y"]);
}

#[test]
fn parse_char_nul_takes_next_character() {
    let m = parse("a[CHAR:0]b");
    assert_eq!(texts(&m), vec!["a]b"]);
}

#[test]
fn parse_line_breaks() {
    let m = parse("a[R]b[B]c[P]d");
    assert_eq!(texts(&m), vec!["a", "", "b", "", "c", "", "d"]);
    let flags: Vec<u32> = m.word.iter().map(|w| w.flags()).collect();
    assert_eq!(
        flags,
        vec![0, MARKUP_WORD_FLAG_NEWLINE, 0, MARKUP_WORD_FLAG_BLANK_LINE, 0, MARKUP_WORD_FLAG_INDENT, 0]
    );
    assert_eq!(m.word[1].link_index(), 0);
}

#[test]
fn parse_empty_gives_line_break() {
    let m = parse("");
    assert_eq!(m.word.len(), 1);
    assert_eq!(m.word[0].flags(), MARKUP_WORD_FLAG_NEWLINE);
    assert_eq!(m.word[0].text(), "");
    assert_eq!(m.links().len(), 0);
}

#[test]
fn parse_literal_brackets() {
    assert_eq!(texts(&parse("[[x]]")), vec!["[x]"]);
    assert_eq!(texts(&parse("a]b")), vec!["ab"]);
    assert_eq!(texts(&parse("a[.b")), vec!["a.b"]);
    assert_eq!(texts(&parse("a[ b")), vec!["a b"]);
}

#[test]
fn parse_links_and_punctuation_merge() {
    let m = parse("[LPAGE:HF:12]Urist[/LPAGE].");
    assert_eq!(texts(&m), vec!["Urist."]);
    assert_eq!(m.word[0].link_index(), 0);
    assert_eq!(m.links().len(), 1);
    assert_eq!(m.links()[0].link_type(), LinkType::HIST_FIG);
    assert_eq!(m.links()[0].id(), 12);
    assert_eq!(m.links()[0].subid(), -1);
    assert_eq!(m.word[0].width_px(), 48);
}

#[test]
fn parse_link_with_subid() {
    let m = parse("[LPAGE:AB:3:7]Hall[/LPAGE] of [LPAGE:SITE:9]Ur[/LPAGE]");
    assert_eq!(texts(&m), vec!["Hall", "of", "Ur"]);
    let idx: Vec<i32> = m.word.iter().map(|w| w.link_index()).collect();
    assert_eq!(idx, vec![0, -1, 1]);
    assert_eq!(m.links()[0].link_type(), LinkType::ABSTRACT_BUILDING);
    assert_eq!(m.links()[0].subid(), 7);
    assert_eq!(m.links()[1].link_type(), LinkType::SITE);
    assert_eq!(m.links()[1].id(), 9);
}

#[test]
fn parse_unknown_link_type() {
    let m = parse("[LPAGE:XX:3]word");
    assert_eq!(texts(&m), vec!["word"]);
    assert_eq!(m.word[0].link_index(), -1);
    assert_eq!(m.links().len(), 0);
}

#[test]
fn parse_key_binding() {
    let keys = vec![(5, "Enter".to_string()), (5, "Other".to_string())];
    let m = ManagedMarkupTextBox::parse("Press [KEY:5] now", &env(), &keys);
    assert_eq!(texts(&m), vec!["Press", "Enter", "now"]);
    assert_eq!(m.word[1].color(), palette_color(10));
    assert_eq!(m.word[1].link_index(), 0);
    assert_eq!(m.word[2].color(), palette_color(7));
    let m = ManagedMarkupTextBox::parse("[KEY:9]", &env(), &keys);
    assert_eq!(texts(&m), vec![""]);
}

#[test]
fn parser_stops_at_key_binding() {
    let e = env();
    let mut p = MarkupParser::new("a [KEY:3] b");
    assert_eq!(p.run(&e), Some(3));
    assert_eq!(p.pending_key(), Some(3));
    p.provide_key_display(&e, "Esc");
    assert_eq!(p.run(&e), None);
    let m = p.finish(&e).unwrap();
    assert_eq!(texts(&m), vec!["a", "Esc", "b"]);
}

#[test]
fn parse_cjk_words() {
    let m = parse("汉字 ab");
    assert_eq!(texts(&m), vec!["汉", "字", "ab"]);
    assert_eq!(m.word[0].width_px(), 8);
    let m = parse("ā");
    assert_eq!(m.word[0].width_px(), 5);
}

#[test]
fn parse_var_tokens() {
    assert_eq!(texts(&parse("[VAR:a:b:c]x")), vec!["x"]);
    let m = parse("[C:VAR:1:2]x");
    assert_eq!(m.word[0].color(), palette_color(15));
}

#[test]
fn parse_unknown_token_is_skipped() {
    assert_eq!(texts(&parse("a[FOO]b")), vec!["ab"]);
    assert_eq!(texts(&parse("a[C:1")), vec!["a"]);
}

#[test]
fn try_parse_rejects_cut_off_char_token() {
    assert!(ManagedMarkupTextBox::try_parse("x[CHAR:0", &env(), &vec![]).is_none());
    assert!(ManagedMarkupTextBox::try_parse("x", &env(), &vec![]).is_some());
}

#[test]
fn color_light_and_dark() {
    assert_eq!(CursesColor::Red.light(), CursesColor::LightRed);
    assert_eq!(CursesColor::LightRed.dark(), CursesColor::Red);
    assert_eq!(CursesColor::White.with_bright(true), CursesColor::BrightWhite);
    assert_eq!(CursesColor::from(0x1c), CursesColor::LightRed);
}

#[test]
fn key_display_looks_up_binding() {
    let keys = vec![(3, "Enter".to_string()), (5, "Esc".to_string())];
    assert_eq!(dfi18n::markup::key_display(&keys, 5), "Esc");
    assert_eq!(dfi18n::markup::key_display(&keys, 3), "Enter");
}

#[test]
fn key_display_of_unlisted_binding_is_empty() {
    let keys = vec![(3, "Enter".to_string()), (3, "Return".to_string())];
    assert_eq!(dfi18n::markup::key_display(&keys, 3), "Enter");
    assert_eq!(dfi18n::markup::key_display(&keys, 9), "");
}
