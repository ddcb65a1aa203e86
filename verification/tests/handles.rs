use dfi18n::glyph::{draw_glyph, GlyphPlacement};
use dfi18n::handles::{CppVector, Renderer, SVector, Texture, Window};

#[test]
fn handles_keep_addresses() {
    let mut v = CppVector::from_raw(0x1000);
    assert_eq!(v.raw(), 0x1000);
    assert_eq!(v.raw_mut(), 0x1000);
    let r = Renderer::from_raw(0x2000);
    assert_eq!(r.inner().raw(), 0x2000);
    assert_eq!(r.inner().raw_mut(), 0x2000);
    assert!(r.same(&Renderer::from_raw(0x2000)));
    assert!(!r.same(&Renderer::from_raw(0x2008)));
    let w = Window::from_raw(0x3000);
    assert_eq!(w.inner().raw(), 0x3000);
    let t = Texture::from_address(0x4000);
    assert_eq!(t.inner().raw_mut(), 0x4000);
}

#[test]
fn svector_size() {
    let v = SVector { begin: 0x100, end: 0x100 + 12 * 5, limit: 0x200 };
    assert_eq!(v.size(12), 5);
    let e = SVector { begin: 0x100, end: 0x100, limit: 0x100 };
    assert_eq!(e.size(4), 0);
}

#[test]
fn glyph_drawing() {
    // a 2x2 bitmap on a 3x3 surface, bottom-aligned with its left edge at 1
    let p = GlyphPlacement { width: 2, height: 2, xmin: 1, ymin: 0, buff_width: 3, buff_height: 3, y_offset: 0 };
    let mut buffer = vec![0u8; 36];
    draw_glyph(&mut buffer, &vec![10, 20, 30, 40], p);
    // rows 1 and 2, columns 1 and 2
    let alpha: Vec<u8> = (0..9).map(|i| buffer[i * 4 + 3]).collect();
    assert_eq!(alpha, vec![0, 0, 0, 0, 10, 20, 0, 30, 40]);
    assert_eq!(&buffer[16..20], &[255, 255, 255, 10]);
    // a bitmap pixel left of the surface is skipped
    let p = GlyphPlacement { width: 1, height: 1, xmin: -1, ymin: 0, buff_width: 1, buff_height: 1, y_offset: 0 };
    let mut buffer = vec![0u8; 4];
    draw_glyph(&mut buffer, &vec![99], p);
    assert_eq!(buffer, vec![0, 0, 0, 0]);
}
