use dfi18n::memory::{
    get_memory_address_by_key, get_pointer, get_raw_pointer_by_key, module_paths, plan_searches, run_searches,
    MemoryError, MemoryRegions, Pointers, Searcher, Token,
};

fn search(method: &str, module: &str, key: &str, value: &str) -> (String, String, String, String) {
    (method.to_string(), module.to_string(), key.to_string(), value.to_string())
}

#[test]
fn regions_merge_and_resolve() {
    let mut r = MemoryRegions::new();
    r.add_memory_region("/game/libg.so".to_string(), 0x1000, 0x1000, 0x2000);
    r.add_memory_region("/game/libg.so".to_string(), 0x1000, 0x3000, 0x4000);
    r.add_memory_region("/game/libg.so".to_string(), 0x1000, 0x2000, 0x3000);
    assert_eq!(r.len(), 1);
    assert_eq!(r.base_and_start(0), (0x1000, 0x1000));
    assert_eq!(r.get_file_offset_by_memory_address(0x3500), Some(("/game/libg.so".to_string(), 0x2500)));
    assert_eq!(r.get_file_offset_by_memory_address(0x4000), None);
    r.add_memory_region("/game/other.so".to_string(), 0x9000, 0x9000, 0x9100);
    assert_eq!(r.len(), 2);
    assert_eq!(r.get_file_offset_by_memory_address(0x9010), Some(("/game/other.so".to_string(), 0x10)));
}

#[test]
fn regions_of_other_modules_do_not_merge() {
    let mut r = MemoryRegions::new();
    r.add_memory_region("/a.so".to_string(), 0, 0x100, 0x200);
    r.add_memory_region("/b.so".to_string(), 0, 0x200, 0x300);
    assert_eq!(r.len(), 2);
}

#[test]
fn searcher_parses_patterns() {
    assert!(Searcher::new("48 8B ?? ##").is_ok());
    assert!(Searcher::new("+1f").is_ok());
    assert_eq!(Searcher::new("zz").err(), Some(MemoryError::InvalidPattern));
    assert_eq!(Searcher::new("").err(), Some(MemoryError::InvalidPattern));
    assert_eq!(Searcher::new("100").err(), Some(MemoryError::InvalidPattern));
    assert_eq!(Searcher::new("48  8B").err(), Some(MemoryError::InvalidPattern));
    let _ = Token::Wildcard;
}

#[test]
fn searcher_matches() {
    let s = Searcher::new("48 ?? ##").unwrap();
    let data = [0x48, 0x00, 0x31, 0x48, 0xff, 0x39, 0x48, 0x01, 0x41];
    assert_eq!(s.matches(&data), vec![0, 3]);
    assert_eq!(s.matches(&[0x48, 0x00]), Vec::<usize>::new());
    let s = Searcher::new("ab").unwrap();
    assert_eq!(s.matches(&[0xab, 0xab]), vec![0, 1]);
}

#[test]
fn searches_find_pointers() {
    let mut r = MemoryRegions::new();
    r.add_memory_region("/game/libg.so".to_string(), 0x1000, 0x1100, 0x1108);
    r.add_memory_region("/game/libx.so".to_string(), 0x8000, 0x8000, 0x9000);
    let searches = vec![
        search("pattern", "libg.so", "found", "CA FE"),
        search("pattern", "libg.so", "twice", "00"),
        search("symbol", "libx.so", "sym_key", "my_symbol"),
        search("other", "libg.so", "ignored", "00"),
    ];
    let plan = plan_searches(&searches).unwrap();
    let map = module_paths(&r, '/').unwrap();
    assert_eq!(map[0], ("libg.so".to_string(), "/game/libg.so".to_string()));
    let datas = vec![vec![0x00, 0x11, 0xca, 0xfe, 0x00, 0x22, 0x33, 0x44], vec![0; 0x1000]];
    let loaded = vec![Some(vec![Some(0x8040)])];
    let pointers = run_searches(&plan, &map, &r, &datas, &loaded).unwrap();
    assert_eq!(get_memory_address_by_key(&pointers, "found"), Some(0x1102));
    assert_eq!(get_pointer(&pointers, "found").unwrap().0, ("/game/libg.so".to_string(), 0x102));
    assert_eq!(get_memory_address_by_key(&pointers, "twice"), None);
    assert_eq!(get_raw_pointer_by_key(&pointers, "sym_key"), Ok(0x8040));
    assert_eq!(get_raw_pointer_by_key(&pointers, "ignored"), Err(MemoryError::PointerNotFound));
}

#[test]
fn searches_report_errors() {
    assert_eq!(plan_searches(&vec![search("pattern", "m", "k", "GG")]).err(), Some(MemoryError::InvalidPattern));
    let mut r = MemoryRegions::new();
    r.add_memory_region("noslash".to_string(), 0, 0, 1);
    assert_eq!(module_paths(&r, '/').err(), Some(MemoryError::InvalidModulePath));

    let mut r = MemoryRegions::new();
    r.add_memory_region("/game/libx.so".to_string(), 0x8000, 0x8000, 0x9000);
    let map = module_paths(&r, '/').unwrap();
    let plan = plan_searches(&vec![search("symbol", "liby.so", "k", "s")]).unwrap();
    assert_eq!(run_searches(&plan, &map, &r, &vec![vec![]], &vec![None]).err(), Some(MemoryError::NoModulePath));
    let plan = plan_searches(&vec![search("symbol", "libx.so", "k", "s")]).unwrap();
    assert_eq!(
        run_searches(&plan, &map, &r, &vec![vec![]], &vec![None]).err(),
        Some(MemoryError::ModuleLoadFailed)
    );
    assert_eq!(
        run_searches(&plan, &map, &r, &vec![vec![]], &vec![Some(vec![None])]).err(),
        Some(MemoryError::SymbolNotFound)
    );
    assert_eq!(
        run_searches(&plan, &map, &r, &vec![vec![]], &vec![Some(vec![Some(0x10)])]).err(),
        Some(MemoryError::NoFileOffset)
    );
}

#[test]
fn pointers_keep_last_value() {
    let mut p = Pointers::new();
    p.insert("k".to_string(), (("/a".to_string(), 1), 2));
    p.insert("j".to_string(), (("/b".to_string(), 3), 4));
    p.insert("k".to_string(), (("/c".to_string(), 5), 6));
    assert_eq!(get_memory_address_by_key(&p, "k"), Some(6));
    assert_eq!(get_memory_address_by_key(&p, "j"), Some(4));
}

#[test]
fn regions_are_ordered_and_readable() {
    let mut r = MemoryRegions::new();
    assert!(r.ordered());
    r.add_memory_region("/game/libg.so".to_string(), 0x1000, 0x1000, 0x2000);
    assert!(r.ordered());
    let region = r.region(0);
    assert_eq!((region.0.as_str(), region.1, region.2, region.3), ("/game/libg.so", 0x1000, 0x1000, 0x2000));
}

#[test]
fn pattern_found_after_base_in_region_starting_before_it() {
    let mut r = MemoryRegions::new();
    r.add_memory_region("/game/liba.so".to_string(), 0x1004, 0x1000, 0x1010);
    let map = module_paths(&r, '/').unwrap();
    let plan = plan_searches(&vec![search("pattern", "liba.so", "k", "AB CD")]).unwrap();
    let mut data = vec![0u8; 0x10];
    data[8] = 0xab;
    data[9] = 0xcd;
    let pointers = run_searches(&plan, &map, &r, &vec![data], &vec![]).unwrap();
    assert_eq!(get_pointer(&pointers, "k").unwrap(), &(("/game/liba.so".to_string(), 4), 0x1008));
}
