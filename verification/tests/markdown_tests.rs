use blog_backend::markdown::{split_front_matter, untitled_front_matter, untitled_front_matter_dated, MdSplit};

fn framed(raw: &str) -> (String, String) {
    match split_front_matter(raw) {
        MdSplit::Framed { yaml, body } => (yaml, body),
        MdSplit::Bare { .. } => panic!("expected a front matter block"),
    }
}

#[test]
fn text_without_fence_is_all_body() {
    match split_front_matter("# Title\n---\nmore") {
        MdSplit::Bare { body } => assert_eq!(body, "# Title\n---\nmore"),
        MdSplit::Framed { .. } => panic!("no front matter expected"),
    }
}

#[test]
fn leading_space_before_fence_is_all_body() {
    match split_front_matter(" ---\ntitle: x\n---\n") {
        MdSplit::Bare { body } => assert_eq!(body, " ---\ntitle: x\n---\n"),
        MdSplit::Framed { .. } => panic!("no front matter expected"),
    }
}

#[test]
fn fenced_article_splits_into_yaml_and_trimmed_body() {
    let raw = "---\ntitle: \"Rust 异步编程入门\"\ntags: [\"rust\"]\n---\n\n# Hello\n\nbody text\n\n";
    let (yaml, body) = framed(raw);
    assert_eq!(yaml, "\ntitle: \"Rust 异步编程入门\"\ntags: [\"rust\"]\n");
    assert_eq!(body, "# Hello\n\nbody text");
}

#[test]
fn body_keeps_later_fences() {
    let (yaml, body) = framed("---\na: 1\n---\none\n---\ntwo\n");
    assert_eq!(yaml, "\na: 1\n");
    assert_eq!(body, "one\n---\ntwo");
}

#[test]
fn missing_closing_fence_gives_empty_body() {
    let (yaml, body) = framed("---\ntitle: x\nno end");
    assert_eq!(yaml, "\ntitle: x\nno end");
    assert_eq!(body, "");
}

#[test]
fn four_dashes_leave_one_dash_of_yaml() {
    let (yaml, body) = framed("----");
    assert_eq!(yaml, "-");
    assert_eq!(body, "");
}

#[test]
fn empty_front_matter() {
    let (yaml, body) = framed("------body");
    assert_eq!(yaml, "");
    assert_eq!(body, "body");
}

#[test]
fn unicode_white_space_is_trimmed_from_body() {
    let (_, body) = framed("---\nx: 1\n---\u{3000}\u{a0}\t text \u{2003}\r\n");
    assert_eq!(body, "text");
}

#[test]
fn untitled_front_matter_has_default_title_and_a_date() {
    let fm = untitled_front_matter();
    assert_eq!(fm.title, "未命名文章");
    assert!(fm.description.is_none());
    assert!(fm.category.is_none());
    assert!(fm.tags.is_none());
    let date = fm.date.expect("a date");
    assert_eq!(date.len(), 10);
    assert_eq!(&date[4..5], "-");
    assert_eq!(&date[7..8], "-");
}

#[test]
fn untitled_front_matter_dated_keeps_the_date() {
    let fm = untitled_front_matter_dated("2025-01-15".to_string());
    assert_eq!(fm.title, "未命名文章");
    assert_eq!(fm.date.as_deref(), Some("2025-01-15"));
}

#[test]
fn framed_article_round_trips() {
    let (yaml, body) = framed(&format!("---{}---{}", "\ntitle: T\n", "body --- with fence"));
    assert_eq!(yaml, "\ntitle: T\n");
    assert_eq!(body, "body --- with fence");
}
