use indexmap::IndexMap;
use dfi18n::diagnostics::{backtrace, context_kind, log_text, to_hex, ContextKind, VisitedTexts};
use dfi18n::elf::{ElfError, ElfFile};
use dfi18n::memory::MemoryRegions;

#[test]
fn hex_formatting() {
    assert_eq!(to_hex(0), vec!['0']);
    assert_eq!(to_hex(255), vec!['f', 'f']);
    assert_eq!(to_hex(0x1a2b), vec!['1', 'a', '2', 'b']);
}

#[test]
fn backtrace_offsets() {
    let mut r = MemoryRegions::new();
    r.add_memory_region("/game/libg_src_lib.so".to_string(), 0x1000, 0x1000, 0x2000);
    r.add_memory_region("/game/other.so".to_string(), 0x5000, 0x5000, 0x6000);
    assert!(r.bases_ok());
    let frames = vec![(0x1010, 0x1000), (0x5abc, 0x9999), (0, 0x1000), (0x1020, 0x1000)];
    assert_eq!(backtrace(&r, &frames, true), "^@10/@0/^abc");
    assert_eq!(backtrace(&r, &frames, false), "");
    assert!(r.frames_based(&frames));
}

#[test]
fn frames_based_reads_only_frames_before_null() {
    let mut r = MemoryRegions::new();
    r.add_memory_region("/game/a.so".to_string(), 0x3000, 0x1000, 0x2000);
    r.add_memory_region("/game/b.so".to_string(), 0x5000, 0x5000, 0x6000);
    assert!(!r.bases_ok());
    assert!(r.address_based(0x5010));
    assert!(!r.address_based(0x1010));
    assert!(r.address_based(0x9000));
    assert!(r.frames_based(&vec![(0x5010, 0x9000), (0, 0x1010)]));
    assert!(!r.frames_based(&vec![(0x5010, 0x1010)]));
    assert_eq!(backtrace(&r, &vec![(0x5010, 0x9000), (0, 0x1010)], true), "^10");
}

#[test]
fn texts_are_logged_once() {
    let mut v = VisitedTexts::new();
    assert!(log_text(&mut v, "50.13", ContextKind::Addst, "Hello"));
    assert!(!log_text(&mut v, "50.13", ContextKind::Addst, "Hello"));
    assert!(log_text(&mut v, "50.13", ContextKind::TopAddst, "Hello"));
    assert!(!log_text(&mut v, "50.13", ContextKind::Addst, "42"));
    assert_eq!(context_kind(ContextKind::MarkupTextBox), "mtb_process_string_to_lines");
}

fn minimal_elf() -> Vec<u8> {
    let mut h = vec![0x7f, b'E', b'L', b'F', 2, 1, 1, 0];
    h.extend_from_slice(&[0; 8]);
    h.extend_from_slice(&2u16.to_le_bytes());
    h.extend_from_slice(&0x3eu16.to_le_bytes());
    h.extend_from_slice(&1u32.to_le_bytes());
    h.extend_from_slice(&0u64.to_le_bytes());
    h.extend_from_slice(&0u64.to_le_bytes());
    h.extend_from_slice(&0u64.to_le_bytes());
    h.extend_from_slice(&0u32.to_le_bytes());
    h.extend_from_slice(&64u16.to_le_bytes());
    h.extend_from_slice(&56u16.to_le_bytes());
    h.extend_from_slice(&0u16.to_le_bytes());
    h.extend_from_slice(&64u16.to_le_bytes());
    h.extend_from_slice(&0u16.to_le_bytes());
    h.extend_from_slice(&0u16.to_le_bytes());
    h
}

#[test]
fn elf_files() {
    assert!(matches!(ElfFile::new(&[1, 2, 3]), Err(ElfError::Parse)));
    let f = ElfFile::new(&minimal_elf()).unwrap();
    assert!(f.function_offsets(&IndexMap::new()).unwrap().is_empty());
    let mut wanted = IndexMap::new();
    wanted.insert("foo".to_string(), "bar".to_string());
    match f.function_offsets(&wanted) {
        Err(ElfError::SymbolNotFound(s)) => assert_eq!(s, "foo"),
        _ => panic!("expected a missing symbol"),
    }
}
