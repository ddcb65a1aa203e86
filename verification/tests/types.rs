use dfi18n::types::{tile_color_pair, tile_index, Color, ColorPair, Coordinate, Dimensions};

#[test]
fn tile_index_goes_column_by_column() {
    let d = Dimensions { width: 80, height: 25 };
    assert_eq!(tile_index(Coordinate { column: 0, row: 0 }, d), 0);
    assert_eq!(tile_index(Coordinate { column: 2, row: 3 }, d), 53);
    assert_eq!(tile_index(Coordinate { column: 79, row: 24 }, d), 1999);
}

#[test]
fn tile_color_pair_follows_texture_flags() {
    let pair = ColorPair { foreground: Color { r: 1, g: 2, b: 3 }, background: Color { r: 4, g: 5, b: 6 } };
    let white = ColorPair { foreground: Color { r: 255, g: 255, b: 255 }, background: Color::black() };
    assert_eq!(tile_color_pair(pair, 0, 0), (pair, false));
    assert_eq!(tile_color_pair(pair, 0, 1), (pair, false));
    assert_eq!(tile_color_pair(pair, 7, 0), (white, false));
    assert_eq!(tile_color_pair(pair, 7, 1), (pair, true));
    assert_eq!(tile_color_pair(pair, 7, 2), (pair, false));
    assert_eq!(tile_color_pair(pair, 7, 3), (pair, true));
}

#[test]
fn color_pair_with_foreground_has_black_background() {
    let c = Color { r: 9, g: 8, b: 7 };
    assert_eq!(ColorPair::new_foreground(c), ColorPair { foreground: c, background: Color { r: 0, g: 0, b: 0 } });
}
