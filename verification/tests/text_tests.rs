use tejx::text::{
    contains_char, contains_text, decimal_string, ends_with, replace_all, rfind_char, sort_names, starts_with, str_equals,
    str_less,
};

#[test]
fn decimal_strings() {
    assert_eq!(decimal_string(0), "0");
    assert_eq!(decimal_string(7), "7");
    assert_eq!(decimal_string(10), "10");
    assert_eq!(decimal_string(90210), "90210");
    assert_eq!(decimal_string(usize::MAX), usize::MAX.to_string());
}

#[test]
fn string_predicates() {
    assert!(str_equals("abc", "abc"));
    assert!(!str_equals("abc", "abd"));
    assert!(starts_with("--target=wasm", "--target="));
    assert!(!starts_with("-", "--"));
    assert!(ends_with("x.wasm", "wasm"));
    assert!(!ends_with("a", "wasm"));
    assert!(contains_char("a$1", '$'));
    assert!(!contains_char("", '$'));
}

#[test]
fn last_occurrence_counts_characters() {
    assert_eq!(rfind_char("a.b.c", '.'), Some(3));
    assert_eq!(rfind_char("é.x", '.'), Some(1));
    assert_eq!(rfind_char("abc", '.'), None);
}

#[test]
fn code_point_order() {
    assert!(str_less("a", "b"));
    assert!(str_less("ab", "abc"));
    assert!(!str_less("abc", "ab"));
    assert!(!str_less("x", "x"));
    assert!(str_less("Z", "a"));
    let sorted = sort_names(vec!["b".to_string(), "é".to_string(), "a".to_string(), "A".to_string(), "ab".to_string()]);
    assert_eq!(sorted, vec!["A", "a", "ab", "b", "é"]);
    let mut std_sorted = sorted.clone();
    std_sorted.sort();
    assert_eq!(sorted, std_sorted);
}

#[test]
fn replacing_left_to_right() {
    assert_eq!(replace_all("aaa", "aa", "b"), "ba");
    assert_eq!(replace_all("x[][]y", "[]", "_arr"), "x_arr_arry");
    assert_eq!(replace_all("", "a", "b"), "");
    assert_eq!(replace_all("abc", "", "x"), "xaxbxcx");
    assert_eq!(replace_all("", "", "x"), "x");
    assert!(contains_text(&vec!["p".to_string(), "q".to_string()], "q"));
    assert!(!contains_text(&vec![], "q"));
}
