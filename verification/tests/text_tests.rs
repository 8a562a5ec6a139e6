use icon_packer::text::{
    contains_sub, lowercase, parse_u32, path_join, starts_with_str, str_eq, token_list, trim,
    u32_to_string, vec_contains_str,
};

#[test]
fn trim_removes_surrounding_whitespace() {
    assert_eq!(trim("  hello \t"), "hello");
    assert_eq!(trim("hello"), "hello");
    assert_eq!(trim("   "), "");
    assert_eq!(trim(""), "");
    assert_eq!(trim("\r\n x y \r\n"), "x y");
}

#[test]
fn str_eq_is_exact() {
    assert!(str_eq("abc", "abc"));
    assert!(!str_eq("abc", "abd"));
    assert!(!str_eq("abc", "abcd"));
    assert!(str_eq("", ""));
    assert!(!str_eq("Abc", "abc"));
}

#[test]
fn token_list_splits_trims_and_drops_empties() {
    let toks = token_list(" a , b ,, c ");
    assert_eq!(toks, vec!["a".to_string(), "b".to_string(), "c".to_string()]);
    let toks = token_list("");
    assert!(toks.is_empty());
    let toks = token_list(" , ,");
    assert!(toks.is_empty());
    let toks = token_list("single");
    assert_eq!(toks, vec!["single".to_string()]);
}

#[test]
fn parse_u32_accepts_plain_numbers() {
    assert_eq!(parse_u32("0"), Some(0));
    assert_eq!(parse_u32("48"), Some(48));
    assert_eq!(parse_u32("+7"), Some(7));
    assert_eq!(parse_u32("4294967295"), Some(u32::MAX));
}

#[test]
fn parse_u32_rejects_malformed_numbers() {
    assert_eq!(parse_u32(""), None);
    assert_eq!(parse_u32("+"), None);
    assert_eq!(parse_u32("-1"), None);
    assert_eq!(parse_u32("12x"), None);
    assert_eq!(parse_u32(" 12"), None);
    assert_eq!(parse_u32("4294967296"), None);
    assert_eq!(parse_u32("999999999999999999999"), None);
}

#[test]
fn contains_sub_finds_substrings() {
    assert!(contains_sub("hello world", "lo wo"));
    assert!(contains_sub("hello", ""));
    assert!(contains_sub("hello", "hello"));
    assert!(!contains_sub("hello", "world"));
    assert!(!contains_sub("he", "hello"));
}

#[test]
fn starts_with_str_checks_prefixes() {
    assert!(starts_with_str("48x48/apps/edit.png", "48x48/apps/"));
    assert!(!starts_with_str("48x48/apps", "48x48/apps/"));
    assert!(starts_with_str("abc", ""));
}

#[test]
fn u32_to_string_renders_decimal() {
    assert_eq!(u32_to_string(0), "0");
    assert_eq!(u32_to_string(7), "7");
    assert_eq!(u32_to_string(48), "48");
    assert_eq!(u32_to_string(1234), "1234");
    assert_eq!(u32_to_string(4294967295), "4294967295");
}

#[test]
fn path_join_inserts_one_slash() {
    assert_eq!(path_join("a", "b/c.png"), "a/b/c.png");
    assert_eq!(path_join("48x48/apps", "edit.svg"), "48x48/apps/edit.svg");
}

#[test]
fn lowercase_folds_case() {
    assert_eq!(lowercase("HiColor"), "hicolor");
    assert_eq!(lowercase(""), "");
}

#[test]
fn vec_contains_str_checks_membership() {
    let v = vec!["a".to_string(), "b".to_string()];
    assert!(vec_contains_str(&v, "a"));
    assert!(!vec_contains_str(&v, "c"));
}
