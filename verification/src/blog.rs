//! Blog posts: where articles are stored, how an upload is named, and the
//! query that lists the posts of a category.
use vstd::prelude::*;
use crate::slug::{dash_run_pattern, generate_slug, slug_of};
use crate::pattern::regex_compiles;
use crate::text::{decimal, decimal_string, digit_char, has_suffix, str_ends_with};

verus! {

broadcast use vstd::string::group_string_axioms;

/// A category of posts; categories without a parent are top-level.
#[derive(Debug)]
pub struct BlogPostType {
    /// Unique key, e.g. `rust`.
    pub type_key: String,
    /// Display name.
    pub name: String,
    /// Key of the parent category, if any.
    pub parent_type: Option<String>,
}

/// Query `?article_name=my-post` naming an article to read.
#[derive(Debug)]
pub struct ArticleContentParams {
    pub article_name: String,
}

/// A JSON upload of an article.
pub struct UploadArticleRequest {
    /// File name without extension, e.g. `test_article`.
    pub file_name: String,
    /// Markdown text.
    pub content: String,
}

// ---------------------------------------------------------------- storage keys

/// Object key of the article called `name`: `article/<name>.md`.
pub open spec fn article_key(name: Seq<char>) -> Seq<char> {
    "article/"@ + name + ".md"@
}

/// Object key under which the article called `name` is stored and read.
pub fn article_object_key(name: &str) -> (k: String)
    ensures
        k@ == article_key(name@),
{
    String::from_str("article/").concat(name).concat(".md")
}

/// URL path recorded for the article titled `title`: `/<title>`.
pub open spec fn article_url(title: Seq<char>) -> Seq<char> {
    "/"@ + title
}

/// Title of an uploaded file: its name without a trailing `.md`.
pub open spec fn title_of_file(file_name: Seq<char>) -> Seq<char> {
    if has_suffix(file_name, ".md"@) {
        file_name.take(file_name.len() - 3)
    } else {
        file_name
    }
}

/// File name given to an upload that carries none.
pub open spec fn untitled_file_name() -> Seq<char> {
    "untitled.md"@
}

/// The name of an uploaded file, `untitled.md` when the upload gives none.
pub fn uploaded_file_name(name: Option<&str>) -> (r: String)
    ensures
        r@ == match name {
            Some(n) => n@,
            None => untitled_file_name(),
        },
{
    match name {
        Some(n) => String::from_str(n),
        None => String::from_str("untitled.md"),
    }
}

/// The title of an uploaded file (`str::strip_suffix(".md")`).
pub fn upload_title(file_name: &str) -> (t: String)
    ensures
        t@ == title_of_file(file_name@),
{
    if str_ends_with(file_name, ".md") {
        proof {
            reveal_strlit(".md");
        }
        let n = file_name.unicode_len();
        let t = file_name.substring_char(0, n - 3);
        String::from_str(t)
    } else {
        String::from_str(file_name)
    }
}

/// Where and under which names an article titled `title` is published.
pub struct PublishPlan {
    pub title: String,
    /// Object key of the Markdown body.
    pub object_key: String,
    /// URL path stored with the post.
    pub file_url: String,
    /// URL slug stored with the post.
    pub slug: String,
}

/// The publishing names of an article titled `title`. `None` only when the
/// `regex` crate refuses the slug's dash pattern.
pub fn publish_plan(title: &str) -> (r: Option<PublishPlan>)
    ensures
        r is Some <==> regex_compiles(dash_run_pattern()),
        r matches Some(p) ==> {
            &&& p.title@ == title@
            &&& p.object_key@ == article_key(title@)
            &&& p.file_url@ == article_url(title@)
            &&& p.slug@ == slug_of(title@)
        },
{
    match generate_slug(title) {
        Some(slug) => {
            let object_key = article_object_key(title);
            let file_url = String::from_str("/").concat(title);
            Some(PublishPlan { title: String::from_str(title), object_key, file_url, slug })
        },
        None => None,
    }
}

/// An article is stored under the key it is read back by: publishing a
/// file `name.md` writes `article/name.md`, which a read of the article
/// called `name` fetches, and the stored URL path is `/name`.
pub proof fn lemma_published_article_is_readable(file_name: Seq<char>, plan: PublishPlan)
    requires
        plan.title@ == title_of_file(file_name),
        plan.object_key@ == article_key(plan.title@),
        plan.file_url@ == article_url(plan.title@),
    ensures
        plan.object_key@ == article_key(title_of_file(file_name)),
        has_suffix(file_name, ".md"@) ==> file_name == plan.title@ + ".md"@,
        plan.file_url@ == "/"@ + plan.title@,
{
    reveal_strlit(".md");
    if has_suffix(file_name, ".md"@) {
        assert(file_name =~= file_name.take(file_name.len() - 3) + file_name.skip(file_name.len() - 3));
    }
}

// ---------------------------------------------------------------- posts of a category

/// The category keys whose posts a category lists: its own key, then its
/// children's, in order.
pub open spec fn category_keys(type_key: Seq<char>, children: Seq<BlogPostType>) -> Seq<Seq<char>> {
    seq![type_key] + children.map_values(|c: BlogPostType| c.type_key@)
}

/// The keys of a category and of its child categories.
pub fn type_keys_with_children(type_key: &str, children: &Vec<BlogPostType>) -> (r: Vec<String>)
    ensures
        r@.map_values(|k: String| k@) == category_keys(type_key@, children@),
{
    let mut r: Vec<String> = Vec::new();
    r.push(String::from_str(type_key));
    let mut i: usize = 0;
    while i < children.len()
        invariant
            i <= children@.len(),
            r@.map_values(|k: String| k@) == category_keys(type_key@, children@.take(i as int)),
        decreases children@.len() - i,
    {
        let ghost prev = r@;
        r.push(children[i].type_key.clone());
        proof {
            let f = |k: String| k@;
            let g = |c: BlogPostType| c.type_key@;
            assert(children@.take(i + 1) =~= children@.take(i as int).push(children@[i as int]));
            assert(r@.map_values(f) =~= prev.map_values(f).push(children@[i as int].type_key@));
            assert(children@.take(i + 1).map_values(g) =~= children@.take(i as int).map_values(
                g,
            ).push(children@[i as int].type_key@));
            assert(r@.map_values(f) =~= category_keys(type_key@, children@.take(i + 1)));
        }
        i = i + 1;
    }
    assert(children@.take(children@.len() as int) =~= children@);
    r
}

/// `$1,$2,...,$n`: the bind placeholders of `n` query parameters.
pub open spec fn placeholders(n: nat) -> Seq<char>
    decreases n,
{
    if n == 0 {
        Seq::empty()
    } else if n == 1 {
        seq!['$'] + decimal(1)
    } else {
        placeholders((n - 1) as nat) + seq![',', '$'] + decimal(n)
    }
}

/// The SQL that lists the posts whose category is one of `n` bound keys.
pub open spec fn posts_in_types_sql(n: nat) -> Seq<char> {
    "SELECT * FROM blog_posts WHERE type IN ("@ + placeholders(n) + ")"@
}

/// Builds the query listing the posts of `n` categories, one bind
/// parameter per category.
pub fn posts_in_types_query(n: usize) -> (q: String)
    ensures
        q@ == posts_in_types_sql(n as nat),
{
    let mut marks = String::new();
    let mut i: usize = 0;
    while i < n
        invariant
            i <= n,
            marks@ == placeholders(i as nat),
        decreases n - i,
    {
        let k = i + 1;
        proof {
            reveal_strlit("$");
            reveal_strlit(",$");
        }
        if i == 0 {
            marks = marks.concat("$");
        } else {
            marks = marks.concat(",$");
        }
        marks = marks.concat(decimal_string(k).as_str());
        assert(marks@ =~= placeholders(k as nat));
        i = k;
    }
    String::from_str("SELECT * FROM blog_posts WHERE type IN (").concat(marks.as_str()).concat(")")
}

/// Occurrences of `c` in `s`.
pub open spec fn count_char(s: Seq<char>, c: char) -> nat
    decreases s.len(),
{
    if s.len() == 0 {
        0
    } else {
        count_char(s.drop_last(), c) + if s.last() == c {
            1nat
        } else {
            0nat
        }
    }
}

proof fn lemma_count_concat(a: Seq<char>, b: Seq<char>, c: char)
    ensures
        count_char(a + b, c) == count_char(a, c) + count_char(b, c),
    decreases b.len(),
{
    if b.len() == 0 {
        assert(a + b =~= a);
    } else {
        lemma_count_concat(a, b.drop_last(), c);
        assert((a + b).drop_last() =~= a + b.drop_last());
    }
}

proof fn lemma_decimal_has_no_dollar(n: nat)
    ensures
        count_char(decimal(n), '$') == 0,
    decreases n,
{
    assert(count_char(Seq::<char>::empty(), '$') == 0);
    if n < 10 {
        assert(digit_char(n) != '$');
        assert(decimal(n).drop_last() =~= Seq::<char>::empty());
        assert(decimal(n).last() == digit_char(n));
    } else {
        lemma_decimal_has_no_dollar(n / 10);
        assert(digit_char(n % 10) != '$');
        assert(decimal(n).drop_last() =~= decimal(n / 10));
        assert(decimal(n).last() == digit_char(n % 10));
    }
}

/// The placeholder list binds one parameter per key: it holds exactly `n`
/// `$` signs.
pub proof fn lemma_one_placeholder_per_key(n: nat)
    ensures
        count_char(placeholders(n), '$') == n,
    decreases n,
{
    if n == 1 {
        lemma_decimal_has_no_dollar(1);
        lemma_count_concat(seq!['$'], decimal(1), '$');
        assert(seq!['$'].drop_last() =~= Seq::<char>::empty());
        assert(count_char(Seq::<char>::empty(), '$') == 0);
        assert(count_char(seq!['$'], '$') == 1);
        assert(placeholders(1) == seq!['$'] + decimal(1));
    } else if n > 1 {
        lemma_one_placeholder_per_key((n - 1) as nat);
        lemma_decimal_has_no_dollar(n);
        let sep = seq![',', '$'];
        lemma_count_concat(placeholders((n - 1) as nat), sep, '$');
        lemma_count_concat(placeholders((n - 1) as nat) + sep, decimal(n), '$');
        assert(sep.drop_last() =~= seq![',']);
        assert(seq![','].drop_last() =~= Seq::<char>::empty());
        assert(count_char(Seq::<char>::empty(), '$') == 0);
        assert(count_char(seq![','], '$') == 0);
        assert(count_char(sep, '$') == 1);
        assert(placeholders(n) == placeholders((n - 1) as nat) + sep + decimal(n));
    }
}

} // verus!
