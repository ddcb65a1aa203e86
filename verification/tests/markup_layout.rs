use dfi18n::glyph::GlyphTable;
use dfi18n::markup::{ManagedMarkupTextBox, MarkupEnv};
use dfi18n::registry::{
    contains, fetch_mtb_markup, get, get_mtbs, reset, set_width_and_sync, sync, track_mtb_markup, MarkupRegistry,
};
use dfi18n::types::Color;

fn glyphs() -> GlyphTable {
    GlyphTable {
        orig_width: 8,
        orig_height: 12,
        curses_width: 8,
        curses_height: 12,
        glyphs: vec![('汉', 16, 16), ('字', 16, 16)],
    }
}

fn env() -> MarkupEnv {
    MarkupEnv { palette: (0..16u8).map(|i| Color { r: i, g: i, b: i }).collect(), glyphs: glyphs() }
}

fn parse(s: &str) -> ManagedMarkupTextBox {
    ManagedMarkupTextBox::parse(s, &env(), &vec![])
}

fn positions(m: &ManagedMarkupTextBox) -> Vec<(i32, i32, i32)> {
    m.word.iter().map(|w| (w.x(), w.y(), w.width())).collect()
}

fn rows(m: &ManagedMarkupTextBox) -> Vec<Vec<String>> {
    let b = m.text_block();
    (0..b.row_count())
        .map(|r| {
            let row = b.row(r);
            (0..row.len()).map(|i| row.get(i).content()).collect()
        })
        .collect()
}

#[test]
fn layout_wraps_words() {
    let mut m = parse("aa bb cc");
    m.set_width(&glyphs(), 5);
    assert_eq!(positions(&m), vec![(0, 0, 2), (3, 0, 2), (0, 1, 2)]);
    assert_eq!(m.max_y(), 1);
    assert_eq!(m.current_width(), 5);
    assert_eq!(rows(&m), vec![vec!["aa", " ", "bb"], vec!["cc"]]);
    assert_eq!(m.text_block().columns(), 5);
}

#[test]
fn layout_same_width_changes_nothing() {
    let mut m = parse("aa bb cc");
    m.set_width(&glyphs(), 5);
    let before = positions(&m);
    m.set_width(&glyphs(), 5);
    assert_eq!(positions(&m), before);
    assert_eq!(rows(&m).len(), 2);
    m.set_width(&glyphs(), 20);
    assert_eq!(positions(&m), vec![(0, 0, 2), (3, 0, 2), (6, 0, 2)]);
    assert_eq!(m.max_y(), 0);
    assert_eq!(rows(&m), vec![vec!["aa", " ", "bb", " ", "cc"]]);
}

#[test]
fn layout_line_breaks() {
    let mut m = parse("a[R]b");
    m.set_width(&glyphs(), 10);
    assert_eq!(m.word[0].y(), 0);
    assert_eq!(m.word[2].y(), 1);
    assert_eq!(m.max_y(), 1);
    assert_eq!(rows(&m), vec![vec!["a"], vec!["b"]]);

    let mut m = parse("a[B]b");
    m.set_width(&glyphs(), 10);
    assert_eq!(m.word[2].y(), 2);
    assert_eq!(rows(&m).len(), 3);

    let mut m = parse("a[P]b");
    m.set_width(&glyphs(), 10);
    assert_eq!((m.word[2].x(), m.word[2].y()), (4, 1));
    assert_eq!(rows(&m)[1], vec!["    ", "b"]);
}

#[test]
fn layout_punctuation_stays_with_word() {
    let mut m = parse("aa .");
    m.set_width(&glyphs(), 10);
    assert_eq!(positions(&m), vec![(0, 0, 2), (3, 0, 1)]);
    assert_eq!(rows(&m), vec![vec!["aa", " ", "."]]);
}

#[test]
fn layout_wraps_word_before_punctuation() {
    // "bbb" fits, but the single "." after it would not: both go to the next row
    let mut m = parse("aa bbb .");
    m.set_width(&glyphs(), 7);
    assert_eq!(positions(&m), vec![(0, 0, 2), (0, 1, 3), (4, 1, 1)]);
}

#[test]
fn layout_cjk_without_spaces() {
    let mut m = parse("汉字");
    m.set_width(&glyphs(), 10);
    assert_eq!(positions(&m), vec![(0, 0, 1), (1, 0, 1)]);
    assert_eq!(rows(&m), vec![vec!["汉", "字"]]);
}

#[test]
fn layout_words_never_overlap() {
    let mut m = parse("one two three four five six seven eight nine ten");
    m.set_width(&glyphs(), 12);
    let p = positions(&m);
    for i in 0..p.len() {
        assert!(p[i].2 >= 1);
        for j in i + 1..p.len() {
            assert!(p[i].1 < p[j].1 || (p[i].1 == p[j].1 && p[i].0 + p[i].2 <= p[j].0));
        }
        assert!(p[i].1 <= m.max_y());
    }
    assert_eq!(rows(&m).len() as i32, m.max_y() + 1);
}

#[test]
fn sync_words_fill_and_text() {
    let mut m = parse("ab [LPAGE:HF:1]cd[/LPAGE]");
    m.set_width(&glyphs(), 10);
    let filled = m.sync_words(true);
    assert_eq!(filled[0].text, b"zz".to_vec());
    assert_eq!(filled[1].link_index, 0);
    assert_eq!(filled[1].px, 3);
    let plain = m.sync_words(false);
    assert_eq!(plain[1].text, vec![0x63, 0x64]);
}

#[test]
fn registry_caches_boxes() {
    let mut r = MarkupRegistry::new();
    assert!(!contains(&r, "hi there"));
    let a = get(&mut r, "hi there", &env(), &vec![]);
    assert!(contains(&r, "hi there"));
    assert_eq!(a.word.len(), 2);
    let out = set_width_and_sync(&mut r, "hi there", &glyphs(), 3, false).unwrap();
    assert_eq!(out.1, 3);
    assert_eq!(out.2, 1);
    assert_eq!(out.0[1].py, 1);
    let b = get(&mut r, "hi there", &env(), &vec![]);
    assert_eq!(b.current_width(), 3);
    assert_eq!(sync(&r, "hi there", false).unwrap().0.len(), 2);
    assert!(set_width_and_sync(&mut r, "other", &glyphs(), 3, false).is_none());
    assert!(sync(&r, "other", true).is_none());
    reset(&mut r);
    assert!(!contains(&r, "hi there"));
}

#[test]
fn registry_tracks_markups() {
    let mut r = MarkupRegistry::new();
    assert_eq!(fetch_mtb_markup(&r, 0x10), None);
    track_mtb_markup(&mut r, 0x10, "a".to_string());
    track_mtb_markup(&mut r, 0x20, "b".to_string());
    track_mtb_markup(&mut r, 0x10, "c".to_string());
    assert_eq!(fetch_mtb_markup(&r, 0x10), Some("c".to_string()));
    assert_eq!(fetch_mtb_markup(&r, 0x20), Some("b".to_string()));
    assert_eq!(get_mtbs(&r).len(), 2);
}

#[test]
fn fits_width_for_ordinary_widths() {
    let m = parse("aa bb cc");
    assert!(m.fits_width(&glyphs(), 5));
    assert!(m.fits_width(&glyphs(), 80));
    assert!(m.fits_width(&glyphs(), m.current_width()));
}
