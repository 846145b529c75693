use ds210::text::{lines_of, lower, split_char, split_label, split_ws, str_lt, trim_str, usize_to_string};

#[test]
fn lowercasing_and_trimming_change_their_input() {
    assert_eq!(lower("MiXeD Case"), "mixed case");
    assert_eq!(trim_str("  padded\t"), "padded");
    assert_eq!(trim_str("clean"), "clean");
}

#[test]
fn splitting_matches_the_standard_behavior() {
    assert_eq!(lines_of("a\nb\r\nc\n"), vec!["a", "b", "c"]);
    assert_eq!(lines_of(""), Vec::<String>::new());
    assert_eq!(split_char("a,,b", ','), vec!["a", "", "b"]);
    assert_eq!(split_char("", ','), vec![""]);
    assert_eq!(split_ws("  one \t two  "), vec!["one", "two"]);
    assert_eq!(
        split_label("key: value: rest"),
        Some(("key".to_string(), "value: rest".to_string()))
    );
    assert_eq!(split_label("no separator"), None);
}

#[test]
fn string_order_and_rendering() {
    assert!(str_lt("apple", "banana"));
    assert!(str_lt("app", "apple"));
    assert!(!str_lt("apple", "apple"));
    assert!(!str_lt("banana", "apple"));
    assert_eq!(usize_to_string(0), "0");
    assert_eq!(usize_to_string(907), "907");
}
