//! URL slugs made from article titles.
use vstd::prelude::*;
use crate::pattern::{compile, regex_compiles, replace_all};
use crate::text::{
    ascii_lower, ascii_lowercase, chars_of, collapse_dashes, is_ascii_text, is_char,
    lemma_collapse_alphabet, lemma_collapse_identity,
    lemma_collapse_no_double_dash, lemma_trim_by_edges, lemma_trim_by_identity,
    lemma_trim_by_is_piece, no_double_dash, string_from_chars, to_lowercase, trim_by, trim_char,
    unicode_lowercase,
};

verus! {

broadcast use vstd::string::group_string_axioms;

/// A lowercase ASCII letter or an ASCII digit.
pub open spec fn is_slug_alnum(c: char) -> bool {
    let u = c as u32;
    (0x61 <= u <= 0x7A) || (0x30 <= u <= 0x39)
}

/// Characters kept in a slug stay; every other character becomes `-`.
pub open spec fn slug_char(c: char) -> char {
    if is_slug_alnum(c) {
        c
    } else {
        '-'
    }
}

/// `s` with every character that is not `[a-z0-9]` replaced by `-`.
pub open spec fn dash_non_alnum(s: Seq<char>) -> Seq<char> {
    Seq::new(s.len(), |i: int| slug_char(s[i]))
}

/// `c` is one of the 26 letters `a`..=`z` or the 10 digits `0`..=`9`.
pub open spec fn is_lower_letter_or_digit(c: char) -> bool {
    (('a' as u32) <= (c as u32) <= ('z' as u32)) || (('0' as u32) <= (c as u32) <= ('9' as u32))
}

/// The dashing step keeps every letter `a`..=`z` and digit `0`..=`9` in its
/// place and turns every other character into `-`.
pub proof fn lemma_dashing_keeps_letters_and_digits(s: Seq<char>)
    ensures
        dash_non_alnum(s).len() == s.len(),
        forall|i: int|
            0 <= i < s.len() ==> (is_lower_letter_or_digit(s[i]) ==> #[trigger] dash_non_alnum(
                s,
            )[i] == s[i]) && (!is_lower_letter_or_digit(s[i]) ==> dash_non_alnum(s)[i] == '-'),
{
}

/// The pattern that matches a run of dashes.
pub open spec fn dash_run_pattern() -> Seq<char> {
    "-+"@
}

/// The slug made from already lowercased text: every character outside
/// `[a-z0-9]` turned into `-`, each run of dashes replaced by one dash (the
/// `regex` replacement of `-+` by `-`), then dashes trimmed from both ends.
pub open spec fn slug_from_lower(lower: Seq<char>) -> Seq<char> {
    trim_by(collapse_dashes(dash_non_alnum(lower)), is_char('-'))
}

/// The slug of a title: the slug of its Unicode lowercase form.
pub open spec fn slug_of(title: Seq<char>) -> Seq<char> {
    slug_from_lower(unicode_lowercase(title))
}

/// URL-friendly text: only `[a-z0-9-]`, no two dashes side by side, and
/// no dash at either end.
pub open spec fn is_slug_text(s: Seq<char>) -> bool {
    &&& forall|i: int| 0 <= i < s.len() ==> is_slug_alnum(#[trigger] s[i]) || s[i] == '-'
    &&& no_double_dash(s)
    &&& s.len() > 0 ==> s[0] != '-' && s.last() != '-'
}

/// Replaces every character of `s` outside `[a-z0-9]` by `-`.
pub fn dash_non_alnum_string(s: &str) -> (r: String)
    ensures
        r@ == dash_non_alnum(s@),
        r@.len() == s@.len(),
        forall|i: int|
            0 <= i < s@.len() ==> #[trigger] r@[i] == if is_lower_letter_or_digit(s@[i]) {
                s@[i]
            } else {
                '-'
            },
{
    let cs = chars_of(s);
    let mut out: Vec<char> = Vec::new();
    let mut i: usize = 0;
    while i < cs.len()
        invariant
            i <= cs@.len(),
            cs@ == s@,
            out@ == dash_non_alnum(s@).take(i as int),
        decreases cs@.len() - i,
    {
        let c = cs[i];
        let u = c as u32;
        let d = if (0x61 <= u && u <= 0x7A) || (0x30 <= u && u <= 0x39) {
            c
        } else {
            '-'
        };
        out.push(d);
        assert(dash_non_alnum(s@).take(i + 1) =~= dash_non_alnum(s@).take(i as int).push(d));
        i = i + 1;
    }
    assert(dash_non_alnum(s@).take(cs@.len() as int) =~= dash_non_alnum(s@));
    proof {
        lemma_dashing_keeps_letters_and_digits(s@);
    }
    string_from_chars(&out)
}

/// Builds the URL slug of an article title. `None` only when the regular
/// expression `-+` is refused by the `regex` crate.
pub fn generate_slug(title: &str) -> (r: Option<String>)
    ensures
        r is Some <==> regex_compiles(dash_run_pattern()),
        r matches Some(s) ==> s@ == slug_of(title@) && is_slug_text(s@),
{
    let pattern = "-+";
    let dash = "-";
    match compile(pattern) {
        Ok(dash_runs) => {
            let lower = to_lowercase(title);
            let dashed = dash_non_alnum_string(lower.as_str());
            let collapsed = replace_all(&dash_runs, dashed.as_str(), dash);
            let slug = trim_char(collapsed.as_str(), '-');
            proof {
                lemma_slug_shape(lower@);
            }
            Some(slug)
        },
        Err(_) => None,
    }
}

/// Before dash runs are collapsed, the text holds only `[a-z0-9-]` and has
/// the length of the lowercased title.
pub proof fn lemma_dashed_alphabet(s: Seq<char>)
    ensures
        dash_non_alnum(s).len() == s.len(),
        forall|i: int|
            0 <= i < s.len() ==> is_slug_alnum(#[trigger] dash_non_alnum(s)[i])
                || dash_non_alnum(s)[i] == '-',
{
}

/// A slug is URL-friendly: only `[a-z0-9-]`, no `--`, and no dash at
/// either end.
pub proof fn lemma_slug_shape(lower: Seq<char>)
    ensures
        is_slug_text(slug_from_lower(lower)),
{
    let dashed = dash_non_alnum(lower);
    let collapsed = collapse_dashes(dashed);
    let slug = slug_from_lower(lower);
    let in_alphabet = |c: char| is_slug_alnum(c) || c == '-';
    assert forall|i: int| 0 <= i < dashed.len() implies in_alphabet(#[trigger] dashed[i]) by {}
    lemma_collapse_alphabet(dashed, in_alphabet);
    lemma_collapse_no_double_dash(dashed);
    lemma_trim_by_edges(collapsed, is_char('-'));
    lemma_trim_by_is_piece(collapsed, is_char('-'));
    let (lo, hi) = choose|lo: int, hi: int|
        0 <= lo <= hi <= collapsed.len() && trim_by(collapsed, is_char('-')) == collapsed.subrange(
            lo,
            hi,
        );
    assert forall|i: int| 0 <= i < slug.len() implies is_slug_alnum(#[trigger] slug[i]) || slug[i]
        == '-' by {
        assert(slug[i] == collapsed[lo + i]);
        assert(in_alphabet(collapsed[lo + i]));
    }
    assert forall|i: int| 0 <= i < slug.len() - 1 implies !(#[trigger] slug[i] == '-' && slug[i
        + 1] == '-') by {
        assert(slug[i] == collapsed[lo + i] && slug[i + 1] == collapsed[lo + i + 1]);
    }
}

/// A slug neither starts nor ends with `-`.
pub proof fn lemma_slug_has_no_edge_dashes(title: Seq<char>)
    ensures
        slug_of(title).len() > 0 ==> slug_of(title)[0] != '-' && slug_of(title).last() != '-',
{
    lemma_slug_shape(unicode_lowercase(title));
}

/// Slugging a slug gives it back: a slug is ASCII, `to_lowercase` lowers
/// ASCII text character by character, which leaves `[a-z0-9-]` as it is,
/// and turning others to dashes, collapsing dash runs and trimming dashes
/// then change nothing.
pub proof fn lemma_slug_is_fixed_point(title: Seq<char>)
    ensures
        is_ascii_text(slug_of(title)),
        slug_from_lower(ascii_lowercase(slug_of(title))) == slug_of(title),
{
    let s = slug_of(title);
    lemma_slug_shape(unicode_lowercase(title));
    assert forall|i: int| 0 <= i < s.len() implies (#[trigger] s[i] as u32) < 128 by {
        assert(is_slug_alnum(s[i]) || s[i] == '-');
    }
    assert(ascii_lowercase(s) =~= s) by {
        assert forall|i: int| 0 <= i < s.len() implies ascii_lowercase(s)[i] == s[i] by {
            assert(is_slug_alnum(s[i]) || s[i] == '-');
            assert(ascii_lower(s[i]) == s[i]);
        }
    }
    assert(dash_non_alnum(s) =~= s) by {
        assert forall|i: int| 0 <= i < s.len() implies dash_non_alnum(s)[i] == s[i] by {
            assert(is_slug_alnum(s[i]) || s[i] == '-');
        }
    }
    lemma_collapse_identity(s);
    lemma_trim_by_identity(s, is_char('-'));
}

} // verus!
