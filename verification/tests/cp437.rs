use dfi18n::cp437::{
    char_is_cp437, char_to_cp437_codepoint, cp437_codepoint_to_char, cp437_codepoints_to_string,
    string_to_cp437_codepoints,
};

#[test]
fn test_string_to_cp437_codepoint() {
    assert_eq!(char_to_cp437_codepoint('\u{0}'), 0x0); // 0x00 mapped to space
    assert_eq!(char_to_cp437_codepoint('☺'), 0x01); // first CP437 character (except NULL)
    assert_eq!(char_to_cp437_codepoint(' '), 0x20); // space only maps back to 0x20, not 0x00
    assert_eq!(char_to_cp437_codepoint('A'), 0x41); // ASCII character - same codepoint
    assert_eq!(char_to_cp437_codepoint('é'), 0x82); // Latin character
    assert_eq!(char_to_cp437_codepoint('¥'), 0x9d); // Symbol character
    assert_eq!(char_to_cp437_codepoint('■'), 0xfe); // Last CP437 character (except 0xff)
    assert_eq!(char_to_cp437_codepoint('\u{a0}'), 0xff); // 0xff mapped to NBSP
    assert_eq!(char_to_cp437_codepoint('😀'), 0x00); // not found
    assert_eq!(char_to_cp437_codepoint('汉'), 0x00); // not found
}

#[test]
fn codepoint_to_char_values() {
    assert_eq!(cp437_codepoint_to_char(0), '\u{0}');
    assert_eq!(cp437_codepoint_to_char(0x01), '☺');
    assert_eq!(cp437_codepoint_to_char(0x41), 'A');
    assert_eq!(cp437_codepoint_to_char(154), 'Ü');
    assert_eq!(cp437_codepoint_to_char(0xff), '\u{a0}');
}

#[test]
fn codepoints_round_trip() {
    for b in 1..=255u8 {
        assert_eq!(char_to_cp437_codepoint(cp437_codepoint_to_char(b)), b);
    }
}

#[test]
fn chars_round_trip() {
    for ch in ['A', 'é', '¥', '■', '☺', ' ', '~'] {
        assert_eq!(cp437_codepoint_to_char(char_to_cp437_codepoint(ch)), ch);
    }
}

#[test]
fn strings_to_codepoints() {
    assert_eq!(string_to_cp437_codepoints("Aé汉"), vec![0x41, 0x82, 0x00]);
    assert_eq!(cp437_codepoints_to_string(&[0x48, 0x69, 0x9a]), "HiÜ".to_string());
    assert!(char_is_cp437('é'));
    assert!(!char_is_cp437('汉'));
}
