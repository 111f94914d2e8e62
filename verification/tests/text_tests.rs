use blog_backend::text::{decimal_string, str_ends_with, str_starts_with, trim_char, trim_end_char};

#[test]
fn decimals() {
    assert_eq!(decimal_string(0), "0");
    assert_eq!(decimal_string(7), "7");
    assert_eq!(decimal_string(10), "10");
    assert_eq!(decimal_string(1234567), "1234567");
}

#[test]
fn trimming_a_character() {
    assert_eq!(trim_char("--a-b--", '-'), "a-b");
    assert_eq!(trim_char("----", '-'), "");
    assert_eq!(trim_end_char("gallery/x//", '/'), "gallery/x");
    assert_eq!(trim_end_char("/x", '/'), "/x");
}

#[test]
fn prefixes_and_suffixes() {
    assert!(str_ends_with("a/meta.md", "meta.md"));
    assert!(!str_ends_with("md", "meta.md"));
    assert!(str_starts_with("---x", "---"));
    assert!(!str_starts_with("--", "---"));
    assert!(str_ends_with("", ""));
}
