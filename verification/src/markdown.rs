//! Markdown articles with a YAML front matter block.
//!
//! An article may start with a block fenced by `---` lines:
//!
//! ```text
//! ---
//! title: "..."
//! tags: ["rust"]
//! ---
//! body
//! ```
//!
//! This module finds the block and the body; turning the YAML text into a
//! [`FrontMatter`] is a serde parse done by the caller.
use vstd::prelude::*;
use crate::text::{
    chars_of, find_from, first_occurrence, has_prefix, lemma_first_occurrence_is, lemma_first_occurrence_spec,
    lemma_occurs_in_suffix, occurs_at, starts_with_chars, string_from_chars,
    string_from_range, trim_range, trim_white_space,
};

verus! {

broadcast use vstd::string::group_string_axioms;

/// Metadata declared in an article's front matter.
#[derive(Debug)]
pub struct FrontMatter {
    pub title: String,
    pub description: Option<String>,
    pub date: Option<String>,
    pub category: Option<String>,
    pub tags: Option<Vec<String>>,
}

/// An article split into its front matter text and its body.
pub enum MdSplit {
    /// The article does not start with `---`: all of it is body.
    Bare { body: String },
    /// The article starts with `---`: the YAML text up to the next `---`
    /// and the trimmed text after it.
    Framed { yaml: String, body: String },
}

/// The fence `---`.
pub open spec fn fence() -> Seq<char> {
    seq!['-', '-', '-']
}

/// The article opens with a front matter fence.
pub open spec fn opens_with_fence(raw: Seq<char>) -> bool {
    has_prefix(raw, fence())
}

/// Text after the opening fence.
pub open spec fn after_open_fence(raw: Seq<char>) -> Seq<char> {
    raw.skip(3)
}

/// The front matter text: from the opening fence up to the next `---`,
/// or to the end when there is none.
pub open spec fn front_matter_text(raw: Seq<char>) -> Seq<char> {
    let rest = after_open_fence(raw);
    match first_occurrence(rest, fence()) {
        Some(i) => rest.take(i),
        None => rest,
    }
}

/// The body of a fenced article: what follows the closing fence, with
/// surrounding white space removed, or nothing when there is no closing fence.
pub open spec fn fenced_body(raw: Seq<char>) -> Seq<char> {
    let rest = after_open_fence(raw);
    match first_occurrence(rest, fence()) {
        Some(i) => trim_white_space(rest.skip(i + 3)),
        None => Seq::empty(),
    }
}

/// Splits an article into front matter text and body: the framing half of
/// reading an article (`"---" + yaml + "---" + body`).
pub fn split_front_matter(raw: &str) -> (r: MdSplit)
    ensures
        match r {
            MdSplit::Bare { body } => !opens_with_fence(raw@) && body@ == raw@,
            MdSplit::Framed { yaml, body } => {
                &&& opens_with_fence(raw@)
                &&& yaml@ == front_matter_text(raw@)
                &&& body@ == fenced_body(raw@)
            },
        },
{
    let cs = chars_of(raw);
    let n = cs.len();
    let mut fence_chars: Vec<char> = Vec::new();
    fence_chars.push('-');
    fence_chars.push('-');
    fence_chars.push('-');
    assert(fence_chars@ =~= fence());
    if !starts_with_chars(&cs, &fence_chars) {
        let body = string_from_chars(&cs);
        return MdSplit::Bare { body };
    }
    let ghost rest = after_open_fence(raw@);
    match find_from(&cs, &fence_chars, 3) {
        Some(close) => {
            proof {
                let i = close - 3;
                assert(occurs_at(cs@, fence_chars@, close as int));
                assert(close + 3 <= cs@.len());
                lemma_occurs_in_suffix(cs@, fence(), 3, i);
                assert forall|j: int| 0 <= j < i implies !occurs_at(rest, fence(), j) by {
                    lemma_occurs_in_suffix(cs@, fence(), 3, j);
                }
                lemma_first_occurrence_is(rest, fence(), i);
                assert(rest.take(i) =~= cs@.subrange(3, close as int));
                assert(rest.skip(i + 3) =~= cs@.subrange(close + 3, cs@.len() as int));
            }
            let yaml = string_from_range(&cs, 3, close);
            let body = trim_range(&cs, close + 3, n);
            MdSplit::Framed { yaml, body }
        },
        None => {
            proof {
                assert forall|j: int| !occurs_at(rest, fence(), j) by {
                    lemma_occurs_in_suffix(cs@, fence(), 3, j);
                }
                assert(rest =~= cs@.subrange(3, cs@.len() as int));
            }
            let yaml = string_from_range(&cs, 3, cs.len());
            let body = String::new();
            MdSplit::Framed { yaml, body }
        },
    }
}

/// A fenced article is the opening fence, the front matter text, the closing
/// fence and a remainder whose trimmed form is the body; the front matter
/// text never holds `---`.
pub proof fn lemma_fenced_article_reassembles(raw: Seq<char>)
    requires
        opens_with_fence(raw),
        first_occurrence(after_open_fence(raw), fence()) is Some,
    ensures
        exists|tail: Seq<char>|
            raw == fence() + front_matter_text(raw) + fence() + tail && fenced_body(raw)
                == trim_white_space(tail),
        forall|j: int| !occurs_at(front_matter_text(raw), fence(), j),
{
    let rest = after_open_fence(raw);
    lemma_first_occurrence_spec(rest, fence());
    let i = first_occurrence(rest, fence())->0;
    let tail = rest.skip(i + 3);
    let y = rest.take(i);
    assert(fenced_body(raw) == trim_white_space(tail));
    assert(front_matter_text(raw) == y);
    assert(raw.take(3) == fence());
    assert(rest.subrange(i, i + 3) == fence());
    assert(raw =~= fence() + y + fence() + tail);
    assert forall|j: int| !occurs_at(y, fence(), j) by {
        if occurs_at(y, fence(), j) {
            assert(y.subrange(j, j + 3) =~= rest.subrange(j, j + 3));
            assert(occurs_at(rest, fence(), j));
        }
    }
}

/// Framing round trip: an article written as `---`, a front matter text,
/// `---` and a body comes apart into that text and that body, provided no
/// `---` starts inside the front matter text (not even one running into the
/// closing fence) and the body has no surrounding white space.
pub proof fn lemma_framing_round_trip(yaml: Seq<char>, body: Seq<char>)
    requires
        forall|j: int| 0 <= j < yaml.len() ==> !occurs_at(yaml + fence(), fence(), j),
        trim_white_space(body) == body,
    ensures
        opens_with_fence(fence() + yaml + fence() + body),
        front_matter_text(fence() + yaml + fence() + body) == yaml,
        fenced_body(fence() + yaml + fence() + body) == body,
{
    let raw = fence() + yaml + fence() + body;
    let rest = after_open_fence(raw);
    let yf = yaml + fence();
    let n = yaml.len() as int;
    assert(raw.take(3) =~= fence());
    assert(rest =~= yf + body);
    assert(occurs_at(rest, fence(), n)) by {
        assert(rest.subrange(n, n + 3) =~= fence());
    }
    assert forall|j: int| 0 <= j < n implies !occurs_at(rest, fence(), j) by {
        assert(!occurs_at(yf, fence(), j));
        assert(rest.subrange(j, j + 3) =~= yf.subrange(j, j + 3));
    }
    lemma_first_occurrence_is(rest, fence(), n);
    assert(rest.take(n) =~= yaml);
    assert(rest.skip(n + 3) =~= body);
}

/// Title given to an article without front matter.
pub open spec fn untitled_title() -> Seq<char> {
    "未命名文章"@
}

/// Front matter of an article that has none, dated `date`.
pub fn untitled_front_matter_dated(date: String) -> (fm: FrontMatter)
    ensures
        fm.title@ == untitled_title(),
        fm.description is None,
        fm.date == Some(date),
        fm.category is None,
        fm.tags is None,
{
    let title = String::from_str("未命名文章");
    proof {
        reveal_strlit("未命名文章");
    }
    FrontMatter { title, description: None, date: Some(date), category: None, tags: None }
}

/// `chrono::Utc::now`, as a UTC date and time without zone
/// (`DateTime::naive_utc`). Depends on the clock: nothing is stated.
#[verifier::external_body]
fn utc_now() -> chrono::NaiveDateTime {
    chrono::Utc::now().naive_utc()
}

/// An ASCII decimal digit.
pub open spec fn is_digit(c: char) -> bool {
    0x30 <= c as u32 <= 0x39
}

/// A year as chrono's `%Y` writes it: four digits for years 0 to 9999,
/// otherwise a `+` or `-` sign followed by at least four digits.
pub open spec fn is_year_text(y: Seq<char>) -> bool {
    ||| y.len() == 4 && forall|i: int| 0 <= i < 4 ==> is_digit(#[trigger] y[i])
    ||| y.len() >= 5 && (y[0] == '+' || y[0] == '-') && forall|i: int|
        1 <= i < y.len() ==> is_digit(#[trigger] y[i])
}

/// A date written `%Y-%m-%d`: a year, `-`, two digits, `-`, two digits.
pub open spec fn is_ymd_text(s: Seq<char>) -> bool {
    let n = s.len();
    &&& n >= 10
    &&& is_year_text(s.take(n - 6))
    &&& s[n - 6] == '-'
    &&& is_digit(s[n - 5])
    &&& is_digit(s[n - 4])
    &&& s[n - 3] == '-'
    &&& is_digit(s[n - 2])
    &&& is_digit(s[n - 1])
}

/// `chrono::NaiveDateTime::format` rendered to a string. Only the
/// `%Y-%m-%d` format is admitted (chrono panics on an invalid format when
/// rendering). Claimed: the text has the `%Y-%m-%d` shape of chrono's
/// strftime table (`%Y` zero-padded to four digits, signed outside
/// 0..=9999; `%m` and `%d` two digits). Which date it is depends on the
/// time, which is opaque here.
#[verifier::external_body]
fn format_date_time(t: &chrono::NaiveDateTime, fmt: &str) -> (r: String)
    requires
        fmt@ == "%Y-%m-%d"@,
    ensures
        is_ymd_text(r@),
{
    t.format(fmt).to_string()
}

/// Front matter of an article that has none: titled "未命名文章" and dated
/// today (UTC).
pub fn untitled_front_matter() -> (fm: FrontMatter)
    ensures
        fm.title@ == untitled_title(),
        fm.description is None,
        fm.date matches Some(d) && is_ymd_text(d@),
        fm.category is None,
        fm.tags is None,
{
    let now = utc_now();
    let date = format_date_time(&now, "%Y-%m-%d");
    untitled_front_matter_dated(date)
}

} // verus!
