//! Character-level text operations used by the blog's parsers and key builders.
//!
//! Every operation works on the `Seq<char>` view of a string and is proved
//! against a small spec function of this module.
use vstd::prelude::*;

verus! {

broadcast use vstd::string::group_string_axioms;

/// `true` for the code points that carry the Unicode `White_Space` property
/// (the characters that `str::trim` removes).
pub open spec fn is_white_space(c: char) -> bool {
    let u = c as u32;
    ||| 0x09 <= u <= 0x0D
    ||| u == 0x20
    ||| u == 0x85
    ||| u == 0xA0
    ||| u == 0x1680
    ||| 0x2000 <= u <= 0x200A
    ||| u == 0x2028
    ||| u == 0x2029
    ||| u == 0x202F
    ||| u == 0x205F
    ||| u == 0x3000
}

/// `s` begins with `p`.
pub open spec fn has_prefix(s: Seq<char>, p: Seq<char>) -> bool {
    p.len() <= s.len() && s.take(p.len() as int) == p
}

/// `s` ends with `p`.
pub open spec fn has_suffix(s: Seq<char>, p: Seq<char>) -> bool {
    p.len() <= s.len() && s.skip(s.len() - p.len()) == p
}

/// `p` occurs in `s` starting at index `i`.
pub open spec fn occurs_at(s: Seq<char>, p: Seq<char>, i: int) -> bool {
    0 <= i && i + p.len() <= s.len() && s.subrange(i, i + p.len()) == p
}

/// Index of the leftmost occurrence of `p` in `s`, if any.
pub open spec fn first_occurrence(s: Seq<char>, p: Seq<char>) -> Option<int> {
    if exists|i: int| occurs_at(s, p, i) {
        Some(choose|i: int| occurs_at(s, p, i) && forall|j: int| 0 <= j < i ==> !occurs_at(s, p, j))
    } else {
        None
    }
}

/// The leftmost occurrence is the one before which `p` does not occur.
pub proof fn lemma_first_occurrence_is(s: Seq<char>, p: Seq<char>, i: int)
    requires
        occurs_at(s, p, i),
        forall|j: int| 0 <= j < i ==> !occurs_at(s, p, j),
    ensures
        first_occurrence(s, p) == Some(i),
{
    let w = choose|k: int| occurs_at(s, p, k) && forall|j: int| 0 <= j < k ==> !occurs_at(s, p, j);
    assert(occurs_at(s, p, w));
    if w < i {
        assert(!occurs_at(s, p, w));
    } else if w > i {
        assert(!occurs_at(s, p, i));
    }
}

/// What `first_occurrence` promises.
pub proof fn lemma_first_occurrence_spec(s: Seq<char>, p: Seq<char>)
    ensures
        first_occurrence(s, p) matches Some(i) ==> occurs_at(s, p, i) && forall|j: int|
            0 <= j < i ==> !occurs_at(s, p, j),
        first_occurrence(s, p) is None ==> forall|j: int| !occurs_at(s, p, j),
{
    if exists|i: int| occurs_at(s, p, i) {
        let i0 = choose|i: int| occurs_at(s, p, i);
        lemma_least_occurrence_exists(s, p, i0);
    }
}

proof fn lemma_least_occurrence_exists(s: Seq<char>, p: Seq<char>, i: int)
    requires
        occurs_at(s, p, i),
    ensures
        exists|k: int| occurs_at(s, p, k) && forall|j: int| 0 <= j < k ==> !occurs_at(s, p, j),
    decreases i,
{
    if exists|j: int| 0 <= j < i && occurs_at(s, p, j) {
        let j = choose|j: int| 0 <= j < i && occurs_at(s, p, j);
        lemma_least_occurrence_exists(s, p, j);
    } else {
        assert(forall|j: int| 0 <= j < i ==> !occurs_at(s, p, j));
    }
}

/// An occurrence in `s.skip(k)` is an occurrence in `s`, `k` further on.
pub proof fn lemma_occurs_in_suffix(s: Seq<char>, p: Seq<char>, k: int, j: int)
    requires
        0 <= k <= s.len(),
    ensures
        occurs_at(s.skip(k), p, j) <==> (0 <= j && occurs_at(s, p, j + k)),
{
    if 0 <= j && j + p.len() <= s.len() - k {
        assert(s.skip(k).subrange(j, j + p.len()) =~= s.subrange(j + k, j + k + p.len()));
    }
}

/// Index of the rightmost occurrence of the character `c` in `s`, if any.
pub open spec fn last_index_of(s: Seq<char>, c: char) -> Option<int> {
    if exists|i: int| 0 <= i < s.len() && s[i] == c {
        Some(choose|i: int| 0 <= i < s.len() && s[i] == c && forall|j: int| i < j < s.len() ==> s[j] != c)
    } else {
        None
    }
}

/// Number of leading characters of `s` that satisfy `pred`.
pub open spec fn leading_count(s: Seq<char>, pred: spec_fn(char) -> bool) -> nat
    decreases s.len(),
{
    if s.len() > 0 && pred(s[0]) {
        1 + leading_count(s.drop_first(), pred)
    } else {
        0
    }
}

/// Number of trailing characters of `s` that satisfy `pred`.
pub open spec fn trailing_count(s: Seq<char>, pred: spec_fn(char) -> bool) -> nat
    decreases s.len(),
{
    if s.len() > 0 && pred(s.last()) {
        1 + trailing_count(s.drop_last(), pred)
    } else {
        0
    }
}

/// `s` with every leading and trailing character satisfying `pred` removed
/// (the behaviour of `str::trim_matches`).
pub open spec fn trim_by(s: Seq<char>, pred: spec_fn(char) -> bool) -> Seq<char> {
    let front = s.skip(leading_count(s, pred) as int);
    front.take(front.len() - trailing_count(front, pred))
}

/// `s` with every trailing character satisfying `pred` removed
/// (the behaviour of `str::trim_end_matches`).
pub open spec fn trim_end_by(s: Seq<char>, pred: spec_fn(char) -> bool) -> Seq<char> {
    s.take(s.len() - trailing_count(s, pred))
}

/// The behaviour of `str::trim`.
pub open spec fn trim_white_space(s: Seq<char>) -> Seq<char> {
    trim_by(s, |c: char| is_white_space(c))
}

/// Predicate that holds of exactly one character.
pub open spec fn is_char(c: char) -> spec_fn(char) -> bool {
    |x: char| x == c
}

pub proof fn lemma_leading_count_bound(s: Seq<char>, pred: spec_fn(char) -> bool)
    ensures
        leading_count(s, pred) <= s.len(),
        forall|i: int| 0 <= i < leading_count(s, pred) ==> pred(#[trigger] s[i]),
        leading_count(s, pred) < s.len() ==> !pred(s[leading_count(s, pred) as int]),
    decreases s.len(),
{
    if s.len() > 0 && pred(s[0]) {
        lemma_leading_count_bound(s.drop_first(), pred);
        assert forall|i: int| 0 <= i < leading_count(s, pred) implies pred(#[trigger] s[i]) by {
            if i > 0 {
                assert(s[i] == s.drop_first()[i - 1]);
            }
        }
    }
}

pub proof fn lemma_trailing_count_bound(s: Seq<char>, pred: spec_fn(char) -> bool)
    ensures
        trailing_count(s, pred) <= s.len(),
        forall|i: int|
            s.len() - trailing_count(s, pred) <= i < s.len() ==> pred(#[trigger] s[i]),
        trailing_count(s, pred) < s.len() ==> !pred(s[s.len() - trailing_count(s, pred) - 1]),
    decreases s.len(),
{
    if s.len() > 0 && pred(s.last()) {
        lemma_trailing_count_bound(s.drop_last(), pred);
        assert forall|i: int|
            s.len() - trailing_count(s, pred) <= i < s.len() implies pred(#[trigger] s[i]) by {
            if i < s.len() - 1 {
                assert(s[i] == s.drop_last()[i]);
            }
        }
    }
}

/// Leading count computed one step further in: if the first `k` characters
/// all satisfy `pred`, then the count is `k` plus the count of the rest.
proof fn lemma_leading_count_skip(s: Seq<char>, pred: spec_fn(char) -> bool, k: int)
    requires
        0 <= k <= s.len(),
        forall|i: int| 0 <= i < k ==> pred(#[trigger] s[i]),
    ensures
        leading_count(s, pred) == k + leading_count(s.skip(k), pred),
    decreases k,
{
    if k > 0 {
        assert(s.skip(k) =~= s.drop_first().skip(k - 1));
        assert forall|i: int| 0 <= i < k - 1 implies pred(#[trigger] s.drop_first()[i]) by {
            assert(s.drop_first()[i] == s[i + 1]);
        }
        lemma_leading_count_skip(s.drop_first(), pred, k - 1);
    } else {
        assert(s.skip(0) =~= s);
    }
}

proof fn lemma_trailing_count_take(s: Seq<char>, pred: spec_fn(char) -> bool, k: int)
    requires
        0 <= k <= s.len(),
        forall|i: int| s.len() - k <= i < s.len() ==> pred(#[trigger] s[i]),
    ensures
        trailing_count(s, pred) == k + trailing_count(s.take(s.len() - k), pred),
    decreases k,
{
    if k > 0 {
        assert(s.take(s.len() - k) =~= s.drop_last().take(s.drop_last().len() - (k - 1)));
        assert forall|i: int| s.drop_last().len() - (k - 1) <= i < s.drop_last().len() implies pred(
            #[trigger] s.drop_last()[i],
        ) by {
            assert(s.drop_last()[i] == s[i]);
        }
        lemma_trailing_count_take(s.drop_last(), pred, k - 1);
    } else {
        assert(s.take(s.len() as int) =~= s);
    }
}

/// Executable test of `is_white_space`.
pub fn is_white_space_char(c: char) -> (b: bool)
    ensures
        b == is_white_space(c),
{
    let u = c as u32;
    (0x09 <= u && u <= 0x0D) || u == 0x20 || u == 0x85 || u == 0xA0 || u == 0x1680 || (0x2000
        <= u && u <= 0x200A) || u == 0x2028 || u == 0x2029 || u == 0x202F || u == 0x205F || u
        == 0x3000
}

/// The characters of `s`, in order.
pub fn chars_of(s: &str) -> (v: Vec<char>)
    ensures
        v@ == s@,
{
    let mut v: Vec<char> = Vec::new();
    for c in it: s.chars()
        invariant
            v@ == it.seq().take(it.index() as int),
    {
        v.push(c);
    }
    v
}

/// Appends one character (`String::push`).
#[verifier::external_body]
pub fn push_char(s: &mut String, c: char)
    ensures
        final(s)@ == old(s)@.push(c),
{
    s.push(c);
}

/// The string made of the characters `cs[from..to]`.
pub fn string_from_range(cs: &Vec<char>, from: usize, to: usize) -> (r: String)
    requires
        from <= to <= cs@.len(),
    ensures
        r@ == cs@.subrange(from as int, to as int),
{
    let mut r = String::new();
    let mut i = from;
    while i < to
        invariant
            from <= i <= to <= cs@.len(),
            r@ == cs@.subrange(from as int, i as int),
        decreases to - i,
    {
        push_char(&mut r, cs[i]);
        assert(cs@.subrange(from as int, i + 1) =~= cs@.subrange(from as int, i as int).push(
            cs@[i as int],
        ));
        i = i + 1;
    }
    r
}

/// The string made of all of `cs`.
pub fn string_from_chars(cs: &Vec<char>) -> (r: String)
    ensures
        r@ == cs@,
{
    let r = string_from_range(cs, 0, cs.len());
    assert(cs@.subrange(0, cs@.len() as int) =~= cs@);
    r
}

/// Whether `p` occurs in `cs` at index `i`.
pub fn matches_at(cs: &Vec<char>, p: &Vec<char>, i: usize) -> (b: bool)
    ensures
        b == occurs_at(cs@, p@, i as int),
{
    if i > cs.len() || p.len() > cs.len() - i {
        return false;
    }
    let mut k: usize = 0;
    while k < p.len()
        invariant
            i + p@.len() <= cs@.len(),
            cs@.len() <= usize::MAX,
            0 <= k <= p@.len(),
            forall|j: int| 0 <= j < k ==> cs@[i + j] == p@[j],
        decreases p@.len() - k,
    {
        if cs[i + k] != p[k] {
            assert(cs@.subrange(i as int, i + p@.len())[k as int] != p@[k as int]);
            return false;
        }
        k = k + 1;
    }
    assert(cs@.subrange(i as int, i + p@.len()) =~= p@);
    true
}

/// Leftmost occurrence of `p` in `cs` at or after `from`.
pub fn find_from(cs: &Vec<char>, p: &Vec<char>, from: usize) -> (r: Option<usize>)
    requires
        from <= cs@.len(),
    ensures
        match r {
            Some(i) => from <= i && occurs_at(cs@, p@, i as int) && forall|j: int|
                from <= j < i ==> !occurs_at(cs@, p@, j),
            None => forall|j: int| from <= j ==> !occurs_at(cs@, p@, j),
        },
{
    let mut i = from;
    loop
        invariant
            from <= i <= cs@.len(),
            forall|j: int| from <= j < i ==> !occurs_at(cs@, p@, j),
        decreases cs@.len() - i,
    {
        if matches_at(cs, p, i) {
            return Some(i);
        }
        if i == cs.len() {
            return None;
        }
        i = i + 1;
    }
}

/// Leftmost occurrence of `p` in `cs`.
pub fn find_first(cs: &Vec<char>, p: &Vec<char>) -> (r: Option<usize>)
    ensures
        r matches Some(i) ==> first_occurrence(cs@, p@) == Some(i as int),
        r is None ==> first_occurrence(cs@, p@) is None,
{
    let r = find_from(cs, p, 0);
    proof {
        if let Some(i) = r {
            lemma_first_occurrence_is(cs@, p@, i as int);
        }
    }
    r
}

/// What `last_index_of` promises.
pub proof fn lemma_last_index_of_spec(s: Seq<char>, c: char)
    ensures
        last_index_of(s, c) matches Some(i) ==> 0 <= i < s.len() && s[i] == c && forall|j: int|
            i < j < s.len() ==> s[j] != c,
        last_index_of(s, c) is None ==> forall|j: int| 0 <= j < s.len() ==> s[j] != c,
{
    if exists|i: int| 0 <= i < s.len() && s[i] == c {
        let i0 = choose|i: int| 0 <= i < s.len() && s[i] == c;
        lemma_greatest_index_exists(s, c, i0);
    }
}

proof fn lemma_greatest_index_exists(s: Seq<char>, c: char, i: int)
    requires
        0 <= i < s.len(),
        s[i] == c,
    ensures
        exists|k: int| 0 <= k < s.len() && s[k] == c && forall|j: int| k < j < s.len() ==> s[j] != c,
    decreases s.len() - i,
{
    if exists|j: int| i < j < s.len() && s[j] == c {
        let j = choose|j: int| i < j < s.len() && s[j] == c;
        lemma_greatest_index_exists(s, c, j);
    } else {
        assert(forall|j: int| i < j < s.len() ==> s[j] != c);
    }
}

/// Rightmost position of `c` in `cs`.
pub fn rfind_char(cs: &Vec<char>, c: char) -> (r: Option<usize>)
    ensures
        r matches Some(i) ==> last_index_of(cs@, c) == Some(i as int),
        r is None ==> last_index_of(cs@, c) is None,
{
    let mut i = cs.len();
    while i > 0
        invariant
            i <= cs@.len(),
            forall|j: int| i <= j < cs@.len() ==> cs@[j] != c,
        decreases i,
    {
        i = i - 1;
        if cs[i] == c {
            let ghost w = choose|k: int|
                0 <= k < cs@.len() && cs@[k] == c && forall|j: int| k < j < cs@.len() ==> cs@[j] != c;
            assert(w == i as int) by {
                if w < i {
                } else if w > i {
                }
            }
            return Some(i);
        }
    }
    None
}

/// `cs` begins with `p`.
pub fn starts_with_chars(cs: &Vec<char>, p: &Vec<char>) -> (b: bool)
    ensures
        b == has_prefix(cs@, p@),
{
    let b = matches_at(cs, p, 0);
    assert(b ==> cs@.take(p@.len() as int) =~= cs@.subrange(0, p@.len() as int));
    assert(has_prefix(cs@, p@) ==> cs@.subrange(0, p@.len() as int) =~= cs@.take(p@.len() as int));
    b
}

/// `cs` ends with `p`.
pub fn ends_with_chars(cs: &Vec<char>, p: &Vec<char>) -> (b: bool)
    ensures
        b == has_suffix(cs@, p@),
{
    if p.len() > cs.len() {
        return false;
    }
    let start = cs.len() - p.len();
    let b = matches_at(cs, p, start);
    assert(cs@.skip(start as int) =~= cs@.subrange(start as int, start + p@.len()));
    b
}

/// `s` ends with `suffix` (`str::ends_with` with a string pattern).
pub fn str_ends_with(s: &str, suffix: &str) -> (b: bool)
    ensures
        b == has_suffix(s@, suffix@),
{
    let cs = chars_of(s);
    let ps = chars_of(suffix);
    ends_with_chars(&cs, &ps)
}

/// `s` begins with `prefix` (`str::starts_with` with a string pattern).
pub fn str_starts_with(s: &str, prefix: &str) -> (b: bool)
    ensures
        b == has_prefix(s@, prefix@),
{
    let cs = chars_of(s);
    let ps = chars_of(prefix);
    starts_with_chars(&cs, &ps)
}

/// Length of the run of characters equal to `c` at the start of `cs[from..to]`.
fn leading_run_of(cs: &Vec<char>, from: usize, to: usize, c: char) -> (k: usize)
    requires
        from <= to <= cs@.len(),
    ensures
        k == leading_count(cs@.subrange(from as int, to as int), is_char(c)),
{
    let ghost s = cs@.subrange(from as int, to as int);
    let mut i = from;
    while i < to && cs[i] == c
        invariant
            from <= i <= to <= cs@.len(),
            s == cs@.subrange(from as int, to as int),
            forall|j: int| from <= j < i ==> cs@[j] == c,
        decreases to - i,
    {
        i = i + 1;
    }
    proof {
        assert forall|j: int| 0 <= j < i - from implies is_char(c)(#[trigger] s[j]) by {
            assert(s[j] == cs@[from + j]);
        }
        lemma_leading_count_skip(s, is_char(c), i - from);
        let rest = s.skip(i - from);
        if rest.len() > 0 {
            assert(rest[0] == cs@[i as int]);
        }
    }
    i - from
}

/// Number of trailing characters equal to `c` in `cs[from..to]`.
fn trailing_run_of(cs: &Vec<char>, from: usize, to: usize, c: char) -> (k: usize)
    requires
        from <= to <= cs@.len(),
    ensures
        k == trailing_count(cs@.subrange(from as int, to as int), is_char(c)),
{
    let ghost s = cs@.subrange(from as int, to as int);
    let mut i = to;
    while i > from && cs[i - 1] == c
        invariant
            from <= i <= to <= cs@.len(),
            s == cs@.subrange(from as int, to as int),
            forall|j: int| i <= j < to ==> cs@[j] == c,
        decreases i - from,
    {
        i = i - 1;
    }
    proof {
        let k = to - i;
        assert forall|j: int| s.len() - k <= j < s.len() implies is_char(c)(#[trigger] s[j]) by {
            assert(s[j] == cs@[from + j]);
        }
        lemma_trailing_count_take(s, is_char(c), k as int);
        let rest = s.take(s.len() - k);
        if rest.len() > 0 {
            assert(rest.last() == cs@[i - 1]);
        }
    }
    to - i
}

/// Leading white space count of `cs[from..to]`.
fn leading_white_space(cs: &Vec<char>, from: usize, to: usize) -> (k: usize)
    requires
        from <= to <= cs@.len(),
    ensures
        k == leading_count(cs@.subrange(from as int, to as int), |c: char| is_white_space(c)),
{
    let ghost s = cs@.subrange(from as int, to as int);
    let ghost pred = |c: char| is_white_space(c);
    let mut i = from;
    while i < to && is_white_space_char(cs[i])
        invariant
            from <= i <= to <= cs@.len(),
            s == cs@.subrange(from as int, to as int),
            forall|j: int| from <= j < i ==> is_white_space(#[trigger] cs@[j]),
        decreases to - i,
    {
        i = i + 1;
    }
    proof {
        assert forall|j: int| 0 <= j < i - from implies pred(#[trigger] s[j]) by {
            assert(s[j] == cs@[from + j]);
        }
        lemma_leading_count_skip(s, pred, i - from);
        let rest = s.skip(i - from);
        if rest.len() > 0 {
            assert(rest[0] == cs@[i as int]);
        }
    }
    i - from
}

/// Trailing white space count of `cs[from..to]`.
fn trailing_white_space(cs: &Vec<char>, from: usize, to: usize) -> (k: usize)
    requires
        from <= to <= cs@.len(),
    ensures
        k == trailing_count(cs@.subrange(from as int, to as int), |c: char| is_white_space(c)),
{
    let ghost s = cs@.subrange(from as int, to as int);
    let ghost pred = |c: char| is_white_space(c);
    let mut i = to;
    while i > from && is_white_space_char(cs[i - 1])
        invariant
            from <= i <= to <= cs@.len(),
            s == cs@.subrange(from as int, to as int),
            forall|j: int| i <= j < to ==> is_white_space(#[trigger] cs@[j]),
        decreases i - from,
    {
        i = i - 1;
    }
    proof {
        let k = to - i;
        assert forall|j: int| s.len() - k <= j < s.len() implies pred(#[trigger] s[j]) by {
            assert(s[j] == cs@[from + j]);
        }
        lemma_trailing_count_take(s, pred, k as int);
        let rest = s.take(s.len() - k);
        if rest.len() > 0 {
            assert(rest.last() == cs@[i - 1]);
        }
    }
    to - i
}

/// `cs[from..to]` with surrounding white space removed (`str::trim`).
pub fn trim_range(cs: &Vec<char>, from: usize, to: usize) -> (r: String)
    requires
        from <= to <= cs@.len(),
    ensures
        r@ == trim_white_space(cs@.subrange(from as int, to as int)),
{
    let ghost s = cs@.subrange(from as int, to as int);
    let lead = leading_white_space(cs, from, to);
    proof {
        lemma_leading_count_bound(s, |c: char| is_white_space(c));
    }
    let start = from + lead;
    let trail = trailing_white_space(cs, start, to);
    proof {
        let front = s.skip(lead as int);
        assert(front =~= cs@.subrange(start as int, to as int));
        lemma_trailing_count_bound(front, |c: char| is_white_space(c));
    }
    let end = to - trail;
    let r = string_from_range(cs, start, end);
    assert(r@ =~= trim_white_space(s));
    r
}

/// `s` with every leading and trailing `c` removed (`str::trim_matches(c)`).
pub fn trim_char(s: &str, c: char) -> (r: String)
    ensures
        r@ == trim_by(s@, is_char(c)),
{
    let cs = chars_of(s);
    let ghost full = cs@.subrange(0, cs@.len() as int);
    assert(full =~= s@);
    let lead = leading_run_of(&cs, 0, cs.len(), c);
    proof {
        lemma_leading_count_bound(s@, is_char(c));
    }
    let trail = trailing_run_of(&cs, lead, cs.len(), c);
    proof {
        let front = s@.skip(lead as int);
        assert(front =~= cs@.subrange(lead as int, cs@.len() as int));
        lemma_trailing_count_bound(front, is_char(c));
    }
    let end = cs.len() - trail;
    let r = string_from_range(&cs, lead, end);
    assert(r@ =~= trim_by(s@, is_char(c)));
    r
}

/// `s` with every trailing `c` removed (`str::trim_end_matches(c)`).
pub fn trim_end_char(s: &str, c: char) -> (r: String)
    ensures
        r@ == trim_end_by(s@, is_char(c)),
{
    let cs = chars_of(s);
    assert(cs@.subrange(0, cs@.len() as int) =~= s@);
    let trail = trailing_run_of(&cs, 0, cs.len(), c);
    proof {
        lemma_trailing_count_bound(s@, is_char(c));
    }
    let r = string_from_range(&cs, 0, cs.len() - trail);
    assert(r@ =~= trim_end_by(s@, is_char(c)));
    r
}

/// What `str::to_lowercase` returns: the Unicode lowercase mapping of the
/// text (which may change its length).
pub uninterp spec fn unicode_lowercase(s: Seq<char>) -> Seq<char>;

/// Every character is ASCII.
pub open spec fn is_ascii_text(s: Seq<char>) -> bool {
    forall|i: int| 0 <= i < s.len() ==> (#[trigger] s[i] as u32) < 128
}

/// ASCII lowercasing of one character: `A-Z` to `a-z`, others unchanged.
pub open spec fn ascii_lower(c: char) -> char {
    if 0x41 <= c as u32 <= 0x5A {
        ((c as u32) + 32) as char
    } else {
        c
    }
}

/// ASCII lowercasing of a text, character by character.
pub open spec fn ascii_lowercase(s: Seq<char>) -> Seq<char> {
    Seq::new(s.len(), |i: int| ascii_lower(s[i]))
}

/// `str::to_lowercase`. Claimed: the result is `unicode_lowercase` of the
/// input, and on ASCII text it is plain ASCII lowercasing (the Unicode
/// lowercase mapping of an ASCII character is its ASCII lowercase).
#[verifier::external_body]
pub fn to_lowercase(s: &str) -> (r: String)
    ensures
        r@ == unicode_lowercase(s@),
        is_ascii_text(s@) ==> r@ == ascii_lowercase(s@),
{
    s.to_lowercase()
}

/// `s` with each maximal run of `-` replaced by a single `-`.
pub open spec fn collapse_dashes(s: Seq<char>) -> Seq<char>
    decreases s.len(),
{
    if s.len() == 0 {
        s
    } else {
        let r = collapse_dashes(s.drop_last());
        if s.last() == '-' && r.len() > 0 && r.last() == '-' {
            r
        } else {
            r.push(s.last())
        }
    }
}

/// No two `-` stand next to each other.
pub open spec fn no_double_dash(s: Seq<char>) -> bool {
    forall|i: int| 0 <= i < s.len() - 1 ==> !(#[trigger] s[i] == '-' && s[i + 1] == '-')
}

/// Collapsing leaves no two dashes side by side.
pub proof fn lemma_collapse_no_double_dash(s: Seq<char>)
    ensures
        no_double_dash(collapse_dashes(s)),
    decreases s.len(),
{
    if s.len() > 0 {
        let r = collapse_dashes(s.drop_last());
        lemma_collapse_no_double_dash(s.drop_last());
        if !(s.last() == '-' && r.len() > 0 && r.last() == '-') {
            let c = r.push(s.last());
            assert forall|i: int| 0 <= i < c.len() - 1 implies !(#[trigger] c[i] == '-' && c[i + 1]
                == '-') by {
                if i < r.len() - 1 {
                    assert(c[i] == r[i] && c[i + 1] == r[i + 1]);
                } else {
                    assert(c[i] == r.last());
                }
            }
        }
    }
}

/// Collapsing keeps only characters of the text.
pub proof fn lemma_collapse_alphabet(s: Seq<char>, pred: spec_fn(char) -> bool)
    requires
        forall|i: int| 0 <= i < s.len() ==> pred(#[trigger] s[i]),
    ensures
        forall|i: int|
            0 <= i < collapse_dashes(s).len() ==> pred(#[trigger] collapse_dashes(s)[i]),
    decreases s.len(),
{
    if s.len() > 0 {
        assert forall|i: int| 0 <= i < s.drop_last().len() implies pred(
            #[trigger] s.drop_last()[i],
        ) by {
            assert(s.drop_last()[i] == s[i]);
        }
        lemma_collapse_alphabet(s.drop_last(), pred);
        assert(pred(s[s.len() - 1]));
        let r = collapse_dashes(s.drop_last());
        let c = collapse_dashes(s);
        assert forall|i: int| 0 <= i < c.len() implies pred(#[trigger] c[i]) by {
            if i < r.len() {
                assert(c[i] == r[i]);
            } else {
                assert(c[i] == s.last());
            }
        }
    }
}

/// A text without two adjacent dashes is its own collapse.
pub proof fn lemma_collapse_identity(s: Seq<char>)
    requires
        no_double_dash(s),
    ensures
        collapse_dashes(s) == s,
    decreases s.len(),
{
    if s.len() > 0 {
        let d = s.drop_last();
        assert forall|i: int| 0 <= i < d.len() - 1 implies !(#[trigger] d[i] == '-' && d[i + 1]
            == '-') by {
            assert(d[i] == s[i] && d[i + 1] == s[i + 1]);
        }
        lemma_collapse_identity(d);
        if d.len() > 0 {
            assert(d.last() == s[s.len() - 2]);
            assert(!(s[s.len() - 2] == '-' && s[s.len() - 1] == '-'));
        }
        assert(d.push(s.last()) =~= s);
    }
}

/// Trimming takes a contiguous piece of the text.
pub proof fn lemma_trim_by_is_piece(s: Seq<char>, pred: spec_fn(char) -> bool)
    ensures
        exists|lo: int, hi: int|
            0 <= lo <= hi <= s.len() && #[trigger] trim_by(s, pred) == s.subrange(lo, hi),
{
    lemma_leading_count_bound(s, pred);
    let lo = leading_count(s, pred) as int;
    let front = s.skip(lo);
    lemma_trailing_count_bound(front, pred);
    let hi = s.len() - trailing_count(front, pred);
    assert(trim_by(s, pred) =~= s.subrange(lo, hi));
}

/// Trimming a text that neither starts nor ends with a matching character
/// leaves it as it is.
pub proof fn lemma_trim_by_identity(s: Seq<char>, pred: spec_fn(char) -> bool)
    requires
        s.len() > 0 ==> !pred(s[0]) && !pred(s.last()),
    ensures
        trim_by(s, pred) == s,
{
    assert(leading_count(s, pred) == 0);
    assert(s.skip(0) =~= s);
    assert(trailing_count(s, pred) == 0);
    assert(s.take(s.len() as int) =~= s);
}

/// Trimming leaves no matching character at either end.
pub proof fn lemma_trim_by_edges(s: Seq<char>, pred: spec_fn(char) -> bool)
    ensures
        trim_by(s, pred).len() > 0 ==> !pred(trim_by(s, pred)[0]) && !pred(trim_by(s, pred).last()),
        trim_by(s, pred).len() <= s.len(),
{
    lemma_leading_count_bound(s, pred);
    let front = s.skip(leading_count(s, pred) as int);
    lemma_trailing_count_bound(front, pred);
    let t = trim_by(s, pred);
    if t.len() > 0 {
        assert(t[0] == s[leading_count(s, pred) as int]);
        assert(t.last() == front[front.len() - trailing_count(front, pred) - 1]);
    }
}

/// Decimal digits of `n`, most significant first.
pub open spec fn decimal(n: nat) -> Seq<char>
    decreases n,
{
    if n < 10 {
        seq![digit_char(n)]
    } else {
        decimal(n / 10).push(digit_char(n % 10))
    }
}

/// The ASCII digit for `d < 10`.
pub open spec fn digit_char(d: nat) -> char {
    ((d + 48) as u8) as char
}

/// Decimal rendering of `n` (what `format!("{}", n)` prints for an integer).
pub fn decimal_string(n: usize) -> (r: String)
    ensures
        r@ == decimal(n as nat),
{
    let mut digits: Vec<char> = Vec::new();
    let mut m = n;
    // digits are produced least significant first
    let ghost mut low: Seq<char> = Seq::empty();
    while m >= 10
        invariant
            decimal(n as nat) == decimal(m as nat) + low,
            digits@ == low.reverse(),
        decreases m,
    {
        let d = m % 10;
        let ch = (d as u8 + 48) as char;
        proof {
            assert(decimal(m as nat) == decimal((m / 10) as nat).push(digit_char((m % 10) as nat)));
            assert(ch == digit_char(d as nat));
            assert(decimal(m as nat) + low =~= decimal((m / 10) as nat) + seq![ch].add(low));
            assert(seq![ch].add(low).reverse() =~= low.reverse().push(ch));
            low = seq![ch].add(low);
        }
        digits.push(ch);
        m = m / 10;
    }
    let ch = (m as u8 + 48) as char;
    proof {
        assert(decimal(m as nat) =~= seq![ch]);
        assert(seq![ch].add(low).reverse() =~= low.reverse().push(ch));
        low = seq![ch].add(low);
    }
    digits.push(ch);
    let mut r = String::new();
    let mut i = digits.len();
    while i > 0
        invariant
            i <= digits@.len(),
            digits@ == low.reverse(),
            decimal(n as nat) == low,
            r@ == low.subrange(0, (low.len() - i) as int),
        decreases i,
    {
        i = i - 1;
        push_char(&mut r, digits[i]);
        assert(digits@[i as int] == low[low.len() - 1 - i]);
        assert(low.subrange(0, (low.len() - i) as int) =~= low.subrange(
            0,
            (low.len() - i - 1) as int,
        ).push(low[low.len() - 1 - i]));
    }
    assert(low.subrange(0, low.len() as int) =~= low);
    r
}

} // verus!
