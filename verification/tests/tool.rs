use dfi18n::tool::{dump_context, indent, is_csv_input, show_child, test_entries, test_passes};

#[test]
fn csv_input_is_recognized_by_suffix() {
    assert!(is_csv_input("tests.csv"));
    assert!(is_csv_input(".csv"));
    assert!(!is_csv_input("tests.csv.txt"));
    assert!(!is_csv_input("Hello world"));
    assert!(!is_csv_input("csv"));
}

#[test]
fn test_entries_fill_missing_translations() {
    let texts = vec!["a".to_string(), "b".to_string()];
    let translations = vec![Some("A".to_string()), None];
    assert_eq!(
        test_entries(&texts, &translations),
        vec![("a".to_string(), "A".to_string()), ("b".to_string(), String::new())]
    );
    assert!(test_entries(&vec![], &vec![]).is_empty());
}

#[test]
fn test_passes_compares_with_expected() {
    assert!(test_passes(&Some("x".to_string()), &"x".to_string()));
    assert!(!test_passes(&Some("x".to_string()), &"y".to_string()));
    assert!(test_passes(&None, &String::new()));
    assert!(!test_passes(&None, &"y".to_string()));
}

#[test]
fn dump_context_splits_around_match() {
    assert_eq!(
        dump_context("abcdef", "cd", "ef"),
        (Some("ab".to_string()), Some("ef".to_string()))
    );
    assert_eq!(dump_context("abcd", "abcd", ""), (None, None));
    assert_eq!(dump_context("xyz", "q", "z"), (Some("xy".to_string()), Some("z".to_string())));
}

#[test]
fn show_child_only_with_match_unless_verbose() {
    assert!(show_child("a", false));
    assert!(!show_child("", false));
    assert!(show_child("", true));
}

#[test]
fn indent_is_two_spaces_per_level() {
    assert_eq!(indent(0), "");
    assert_eq!(indent(3), "      ");
}
