use blog_backend::slug::{dash_non_alnum_string, generate_slug};

fn slug(title: &str) -> String {
    generate_slug(title).expect("the dash pattern compiles")
}

#[test]
fn words_are_joined_by_dashes() {
    assert_eq!(slug("Hello World"), "hello-world");
}

#[test]
fn underscores_and_runs_collapse() {
    assert_eq!(slug("--A__b  c--"), "a-b-c");
}

#[test]
fn non_ascii_becomes_dashes_and_is_trimmed() {
    assert_eq!(slug("Rust 异步编程入门!"), "rust");
    assert_eq!(slug("异步编程"), "");
}

#[test]
fn digits_are_kept() {
    assert_eq!(slug("Verus 2025: Part 3"), "verus-2025-part-3");
}

#[test]
fn unicode_lowercasing_comes_first() {
    // U+0130 lowercases to "i" followed by a combining dot.
    assert_eq!(slug("\u{130}stanbul"), "i-stanbul");
    // KELVIN SIGN lowercases to ASCII "k".
    assert_eq!(slug("\u{212a}elvin"), "kelvin");
}

#[test]
fn empty_title_gives_empty_slug() {
    assert_eq!(slug(""), "");
}

#[test]
fn dashing_keeps_length() {
    assert_eq!(dash_non_alnum_string("A b_9"), "--b-9");
    assert_eq!(dash_non_alnum_string("é"), "-");
}

#[test]
fn slugging_a_slug_gives_it_back() {
    for title in ["Hello World", "--A__b  c--", "Verus 2025: Part 3", "\u{130}stanbul", ""] {
        let s = slug(title);
        assert_eq!(slug(&s), s);
        assert!(!s.contains("--"));
        assert!(s.chars().all(|c| c.is_ascii_lowercase() || c.is_ascii_digit() || c == '-'));
    }
}
