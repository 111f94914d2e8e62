//! Photo galleries kept as directories of an object store.
//!
//! A gallery is a directory `gallery/<name>/` holding images, a `cover.webp`
//! and a `meta.md` whose front matter gives the title and description.
//! This module makes the listing decisions; the object store is read by the
//! caller.
use vstd::prelude::*;
use base64::Engine;
use crate::pattern::{capture_group_one, compile, regex_compiles, regex_group_one};
use crate::text::{
    chars_of, has_suffix, is_char, last_index_of, lemma_last_index_of_spec, rfind_char, str_ends_with, to_lowercase,
    trim_end_by, trim_end_char, unicode_lowercase,
};

verus! {

broadcast use vstd::string::group_string_axioms;

#[verifier::external_type_specification]
#[verifier::external_body]
pub struct ExNaiveDateTime(chrono::NaiveDateTime);

/// A gallery row of the database.
#[derive(Debug)]
pub struct GalleryEntity {
    pub id: i32,
    pub title: String,
    pub description: String,
    /// Object key of the cover image, e.g. `gallery/sunset/cover.webp`.
    pub cover_url: String,
    pub created_at: chrono::NaiveDateTime,
    pub updated_at: chrono::NaiveDateTime,
}

/// A gallery as the API returns it.
#[derive(Debug)]
pub struct GalleryResponse {
    /// Directory of the gallery in the object store.
    pub name: String,
    pub title: String,
    pub description: String,
    pub cover_image: String,
}

/// A gallery found by walking the object store.
#[derive(Debug)]
pub struct GalleryItem {
    pub name: String,
    pub title: String,
    pub description: String,
    pub cover_image: String,
}

/// Paging query `?page=1&page_size=20`.
pub struct PaginationParams {
    pub page: Option<u32>,
    pub page_size: Option<u32>,
}

/// Title and description read from a gallery's `meta.md`.
#[derive(Debug)]
pub struct MetaData {
    pub title: Option<String>,
    pub description: Option<String>,
}

// ---------------------------------------------------------------- keys

/// The directory part of an object key: everything before its last `/`,
/// or the whole key when it has none.
pub open spec fn dir_of(key: Seq<char>) -> Seq<char> {
    match last_index_of(key, '/') {
        Some(i) => key.take(i),
        None => key,
    }
}

/// Directory of a gallery given the key of its cover image
/// (`gallery/sunset/cover.webp` gives `gallery/sunset`).
pub fn extract_gallery_dir(cover_url: &str) -> (dir: &str)
    ensures
        dir@ == dir_of(cover_url@),
{
    let cs = chars_of(cover_url);
    match rfind_char(&cs, '/') {
        Some(i) => {
            proof {
                lemma_last_index_of_spec(cover_url@, '/');
            }
            let d = cover_url.substring_char(0, i);
            assert(d@ =~= cover_url@.take(i as int));
            d
        },
        None => cover_url,
    }
}

/// A key with a `/` is its directory, a `/` and a file name without `/`.
pub proof fn lemma_dir_and_file(key: Seq<char>)
    requires
        exists|i: int| 0 <= i < key.len() && key[i] == '/',
    ensures
        exists|file: Seq<char>|
            key == dir_of(key) + seq!['/'] + file && forall|j: int|
                0 <= j < file.len() ==> file[j] != '/',
{
    lemma_last_index_of_spec(key, '/');
    let i = last_index_of(key, '/')->0;
    let file = key.skip(i + 1);
    assert(key =~= key.take(i) + seq!['/'] + file);
    assert forall|j: int| 0 <= j < file.len() implies file[j] != '/' by {
        assert(file[j] == key[i + 1 + j]);
    }
    assert(key == dir_of(key) + seq!['/'] + file && forall|j: int|
        0 <= j < file.len() ==> file[j] != '/');
}

/// The object-store prefix listing the files of a gallery:
/// `dir_of(cover_url) + "/"`.
pub fn gallery_list_prefix(cover_url: &str) -> (p: String)
    ensures
        p@ == dir_of(cover_url@).push('/'),
{
    let dir = extract_gallery_dir(cover_url);
    let p = String::from_str(dir).concat("/");
    proof {
        reveal_strlit("/");
        assert(p@ =~= dir_of(cover_url@).push('/'));
    }
    p
}

/// The listing prefix of the gallery called `name`: `gallery/<name>/`.
pub fn gallery_prefix(name: &str) -> (p: String)
    ensures
        p@ == "gallery/"@ + name@ + "/"@,
{
    String::from_str("gallery/").concat(name).concat("/")
}

/// Keys of a gallery directory that are served as images: all but the
/// `meta.md` file.
pub open spec fn is_image_key(key: Seq<char>) -> bool {
    !has_suffix(key, "meta.md"@)
}

/// The image keys of a listing, in order.
pub open spec fn image_keys_of(keys: Seq<String>) -> Seq<String> {
    keys.filter(|k: String| is_image_key(k@))
}

/// Keeps the image keys of a gallery listing, in order.
pub fn image_keys(keys: &Vec<String>) -> (r: Vec<String>)
    ensures
        r@ == image_keys_of(keys@),
        forall|i: int|
            0 <= i < keys@.len() && !has_suffix(keys@[i]@, "meta.md"@) ==> r@.contains(
                #[trigger] keys@[i],
            ),
        forall|j: int| 0 <= j < r@.len() ==> !has_suffix((#[trigger] r@[j])@, "meta.md"@),
{
    let ghost pred = |k: String| is_image_key(k@);
    assert(pred == (|k: String| is_image_key(k@)));
    let mut r: Vec<String> = Vec::new();
    let mut i: usize = 0;
    while i < keys.len()
        invariant
            i <= keys@.len(),
            pred == (|k: String| is_image_key(k@)),
            r@ == keys@.take(i as int).filter(pred),
        decreases keys@.len() - i,
    {
        let keep = !str_ends_with(keys[i].as_str(), "meta.md");
        if keep {
            r.push(keys[i].clone());
        }
        proof {
            reveal_with_fuel(Seq::<_>::filter, 1);
            let t = keys@.take(i + 1);
            assert(t.drop_last() =~= keys@.take(i as int));
            assert(t.last() == keys@[i as int]);
            assert(keep == is_image_key(keys@[i as int]@));
            assert(keep == pred(t.last()));
            assert(r@ == t.filter(pred));
        }
        i = i + 1;
    }
    assert(keys@.take(keys@.len() as int) =~= keys@);
    proof {
        lemma_image_keys_keep_every_non_meta_key(keys@);
    }
    r
}

/// No `meta.md` is served as an image, and every image key is a key of the
/// listing.
pub proof fn lemma_image_keys_exclude_meta(keys: Seq<String>)
    ensures
        forall|i: int|
            0 <= i < image_keys_of(keys).len() ==> {
                &&& is_image_key((#[trigger] image_keys_of(keys)[i])@)
                &&& keys.contains(image_keys_of(keys)[i])
            },
{
    let pred = |k: String| is_image_key(k@);
    assert forall|i: int| 0 <= i < image_keys_of(keys).len() implies {
        &&& is_image_key((#[trigger] image_keys_of(keys)[i])@)
        &&& keys.contains(image_keys_of(keys)[i])
    } by {
        keys.lemma_filter_pred(pred, i);
        assert(keys.filter(pred).contains(keys.filter(pred)[i]));
        keys.lemma_filter_contains_rev(pred, keys.filter(pred)[i]);
    }
}

/// The image keys are exactly the listed keys that do not end with
/// `meta.md`: every such key is kept, and no key ending with `meta.md` is.
pub proof fn lemma_image_keys_keep_every_non_meta_key(keys: Seq<String>)
    ensures
        forall|i: int|
            0 <= i < keys.len() && !has_suffix(keys[i]@, "meta.md"@) ==> image_keys_of(
                keys,
            ).contains(#[trigger] keys[i]),
        forall|j: int|
            0 <= j < image_keys_of(keys).len() ==> !has_suffix(
                (#[trigger] image_keys_of(keys)[j])@,
                "meta.md"@,
            ),
{
    let pred = |k: String| is_image_key(k@);
    assert forall|i: int|
        0 <= i < keys.len() && !has_suffix(keys[i]@, "meta.md"@) implies image_keys_of(
            keys,
        ).contains(#[trigger] keys[i]) by {
        keys.lemma_filter_contains(pred, i);
    }
    assert forall|j: int| 0 <= j < image_keys_of(keys).len() implies !has_suffix(
        (#[trigger] image_keys_of(keys)[j])@,
        "meta.md"@,
    ) by {
        keys.lemma_filter_pred(pred, j);
    }
}

// ---------------------------------------------------------------- paging

/// Page shown when the query names none.
pub open spec fn default_page() -> u32 {
    1
}

/// Page size used when the query names none.
pub open spec fn default_page_size() -> u32 {
    9
}

/// Index of the first item of `page` (counted from 1) at `size` per page.
pub open spec fn page_start(page: int, size: int) -> int {
    (page - 1) * size
}

/// Items `start .. start + size` of `s`, clipped to its end.
pub open spec fn window<T>(s: Seq<T>, start: int, size: int) -> Seq<T> {
    let lo = if start < s.len() {
        start
    } else {
        s.len() as int
    };
    let hi = if start + size < s.len() {
        start + size
    } else {
        s.len() as int
    };
    s.subrange(lo, hi)
}

/// The items of page `page` at `size` items per page.
pub open spec fn page_of<T>(s: Seq<T>, page: int, size: int) -> Seq<T> {
    window(s, page_start(page, size), size)
}

/// The page and page size a query asks for, defaults filled in.
pub fn resolve_page(params: &PaginationParams) -> (r: (u32, u32))
    ensures
        r.0 == match params.page {
            Some(p) => p,
            None => default_page(),
        },
        r.1 == match params.page_size {
            Some(s) => s,
            None => default_page_size(),
        },
{
    let page = match params.page {
        Some(p) => p,
        None => 1,
    };
    let size = match params.page_size {
        Some(s) => s,
        None => 9,
    };
    (page, size)
}

/// A page request that can be served: pages count from 1 and the first item
/// index fits in a `u32`.
pub open spec fn servable_page(page: u32, size: u32) -> bool {
    page >= 1 && page_start(page as int, size as int) <= u32::MAX
}

/// The keys of page `page` (counted from 1), `size` keys per page.
pub fn paginate(keys: &Vec<String>, page: u32, size: u32) -> (r: Vec<String>)
    requires
        servable_page(page, size),
    ensures
        r@ == page_of(keys@, page as int, size as int),
{
    let before = page - 1;
    assert(before * size <= u32::MAX) by {
        assert(page_start(page as int, size as int) == before * size);
    }
    let start = (before * size) as usize;
    let n = keys.len();
    let lo = if start < n {
        start
    } else {
        n
    };
    let room = n - lo;
    let hi = if (size as usize) < room {
        lo + size as usize
    } else {
        n
    };
    let mut r: Vec<String> = Vec::new();
    let mut i = lo;
    while i < hi
        invariant
            lo <= i <= hi <= n,
            n == keys@.len(),
            r@ == keys@.subrange(lo as int, i as int),
        decreases hi - i,
    {
        r.push(keys[i].clone());
        assert(keys@.subrange(lo as int, i + 1) =~= keys@.subrange(lo as int, i as int).push(
            keys@[i as int],
        ));
        i = i + 1;
    }
    assert(r@ =~= page_of(keys@, page as int, size as int));
    r
}

/// The keys a paged gallery query returns, defaults filled in.
pub fn gallery_page(keys: &Vec<String>, params: &PaginationParams) -> (r: Vec<String>)
    requires
        servable_page(
            match params.page {
                Some(p) => p,
                None => default_page(),
            },
            match params.page_size {
                Some(s) => s,
                None => default_page_size(),
            },
        ),
    ensures
        r@ == page_of(
            keys@,
            match params.page {
                Some(p) => p,
                None => default_page(),
            } as int,
            match params.page_size {
                Some(s) => s,
                None => default_page_size(),
            } as int,
        ),
{
    let (page, size) = resolve_page(params);
    paginate(keys, page, size)
}

/// With a positive page size, item `i` is on page `i / size + 1`, at
/// position `i % size`: consecutive pages cover the list once.
pub proof fn lemma_page_covers_item<T>(s: Seq<T>, size: int, i: int)
    requires
        size > 0,
        0 <= i < s.len(),
    ensures
        0 <= i % size < page_of(s, i / size + 1, size).len(),
        page_of(s, i / size + 1, size)[i % size] == s[i],
{
    let q = i / size;
    let r = i % size;
    assert(i == q * size + r && 0 <= r < size) by (nonlinear_arith)
        requires
            size > 0,
            q == i / size,
            r == i % size,
    ;
    assert(page_start(q + 1, size) == q * size) by (nonlinear_arith)
        requires
            size > 0,
    ;
}

/// Pages are no longer than the page size.
pub proof fn lemma_page_len_bound<T>(s: Seq<T>, page: int, size: int)
    requires
        page >= 1,
        size >= 0,
    ensures
        page_of(s, page, size).len() <= size,
{
    assert(page_start(page, size) >= 0) by (nonlinear_arith)
        requires
            page >= 1,
            size >= 0,
    ;
}

// ---------------------------------------------------------------- covers

/// The standard base64 alphabet: `A-Z`, `a-z`, `0-9`, `+`, `/`.
pub open spec fn base64_digit(v: int) -> char {
    if v < 26 {
        (v + 65) as char
    } else if v < 52 {
        (v - 26 + 97) as char
    } else if v < 62 {
        (v - 52 + 48) as char
    } else if v == 62 {
        '+'
    } else {
        '/'
    }
}

/// Padded standard base64 (RFC 4648): each group of three bytes becomes
/// four six-bit digits; a last group of one or two bytes is padded with `=`.
pub open spec fn base64_standard(bytes: Seq<u8>) -> Seq<char>
    decreases bytes.len(),
{
    if bytes.len() == 0 {
        Seq::empty()
    } else if bytes.len() == 1 {
        let b0 = bytes[0] as int;
        seq![base64_digit(b0 / 4), base64_digit((b0 % 4) * 16), '=', '=']
    } else if bytes.len() == 2 {
        let b0 = bytes[0] as int;
        let b1 = bytes[1] as int;
        seq![
            base64_digit(b0 / 4),
            base64_digit((b0 % 4) * 16 + b1 / 16),
            base64_digit((b1 % 16) * 4),
            '=',
        ]
    } else {
        let b0 = bytes[0] as int;
        let b1 = bytes[1] as int;
        let b2 = bytes[2] as int;
        seq![
            base64_digit(b0 / 4),
            base64_digit((b0 % 4) * 16 + b1 / 16),
            base64_digit((b1 % 16) * 4 + b2 / 64),
            base64_digit(b2 % 64),
        ] + base64_standard(bytes.skip(3))
    }
}

/// Length of padded base64 text for `n` bytes.
pub open spec fn base64_len(n: nat) -> nat {
    4 * ((n + 2) / 3)
}

/// `base64::Engine::encode` with the `STANDARD` engine. Claimed: the result
/// is the padded standard base64 text `base64_standard` of the bytes, of
/// length
/// `4 * ceil(n / 3)` (`base64::encoded_len` with padding). The crate panics
/// when that length overflows `usize`, which `requires` rules out.
#[verifier::external_body]
fn base64_encode(bytes: &[u8]) -> (r: String)
    requires
        base64_len(bytes@.len()) <= usize::MAX,
    ensures
        r@ == base64_standard(bytes@),
        r@.len() == base64_len(bytes@.len()),
{
    base64::engine::general_purpose::STANDARD.encode(bytes)
}

/// Prefix of a cover image inlined as a data URL.
pub open spec fn webp_data_prefix() -> Seq<char> {
    "data:image/webp;base64,"@
}

/// Base64 text `encoded` as a `data:image/webp;base64,` URL.
pub fn webp_data_url(encoded: &str) -> (r: String)
    ensures
        r@ == webp_data_prefix() + encoded@,
{
    String::from_str("data:image/webp;base64,").concat(encoded)
}

/// A cover image inlined as a `data:image/webp;base64,` URL.
pub fn cover_data_url(bytes: &[u8]) -> (r: String)
    requires
        base64_len(bytes@.len()) <= usize::MAX,
    ensures
        r@ == webp_data_prefix() + base64_standard(bytes@),
{
    let encoded = base64_encode(bytes);
    webp_data_url(encoded.as_str())
}

/// The API view of a gallery row, given the bytes of its cover image.
pub fn gallery_response(entity: &GalleryEntity, cover_bytes: &[u8]) -> (r: GalleryResponse)
    requires
        base64_len(cover_bytes@.len()) <= usize::MAX,
    ensures
        r.name@ == dir_of(entity.cover_url@),
        r.title@ == entity.title@,
        r.description@ == entity.description@,
        r.cover_image@ == webp_data_prefix() + base64_standard(cover_bytes@),
{
    let cover_image = cover_data_url(cover_bytes);
    let name = String::from_str(extract_gallery_dir(entity.cover_url.as_str()));
    GalleryResponse {
        name,
        title: entity.title.clone(),
        description: entity.description.clone(),
        cover_image,
    }
}

// ---------------------------------------------------------------- meta.md

/// The pattern that finds the front matter of a `meta.md`: the text between
/// the first two `---`, surrounding white space excluded.
pub open spec fn meta_pattern() -> Seq<char> {
    "(?s)---\\s*(.*?)\\s*---"@
}

/// Why no front matter text came out of a `meta.md`.
pub enum MetaBlockError {
    /// The `regex` crate refused the pattern.
    BadPattern,
    /// The text holds no front matter block.
    NotFound,
}

/// The YAML text of a `meta.md` front matter block.
pub fn meta_yaml_block(content: &str) -> (r: Result<String, MetaBlockError>)
    ensures
        r matches Err(MetaBlockError::BadPattern) <==> !regex_compiles(meta_pattern()),
        regex_compiles(meta_pattern()) ==> match r {
            Ok(y) => regex_group_one(meta_pattern(), content@) == Some(y@),
            Err(_) => regex_group_one(meta_pattern(), content@) is None,
        },
{
    match compile("(?s)---\\s*(.*?)\\s*---") {
        Ok(p) => match capture_group_one(&p, content) {
            Some(y) => Ok(y),
            None => Err(MetaBlockError::NotFound),
        },
        Err(_) => Err(MetaBlockError::BadPattern),
    }
}

// ---------------------------------------------------------------- walking a gallery directory

/// What to do with one object of a gallery directory.
pub enum ScanStep {
    /// Read it as the gallery's `meta.md`.
    FetchMeta,
    /// Read it as the gallery's cover image.
    FetchCover,
    /// Nothing.
    Skip,
}

/// What has been learnt of a gallery directory so far.
pub struct GalleryScan {
    pub title: String,
    pub description: String,
    pub cover_image: String,
}

/// `meta.md` is read while no description has been found.
pub open spec fn wants_meta(scan: GalleryScan, key: Seq<char>) -> bool {
    has_suffix(unicode_lowercase(key), "meta.md"@) && scan.description@.len() == 0
}

/// `cover.webp` is read while no cover has been found.
pub open spec fn wants_cover(scan: GalleryScan, key: Seq<char>) -> bool {
    has_suffix(unicode_lowercase(key), "cover.webp"@) && scan.cover_image@.len() == 0
}

/// Both description and cover are known: the rest of the page is skipped.
pub open spec fn scan_complete(scan: GalleryScan) -> bool {
    scan.description@.len() != 0 && scan.cover_image@.len() != 0
}

impl GalleryScan {
    /// Nothing found yet.
    pub fn new() -> (s: GalleryScan)
        ensures
            s.title@.len() == 0,
            s.description@.len() == 0,
            s.cover_image@.len() == 0,
    {
        GalleryScan { title: String::new(), description: String::new(), cover_image: String::new() }
    }

    /// What to do with the object `key` (matched case-insensitively).
    pub fn step(&self, key: &str) -> (r: ScanStep)
        ensures
            r is FetchMeta <==> wants_meta(*self, key@),
            r is FetchCover <==> !wants_meta(*self, key@) && wants_cover(*self, key@),
            r is FetchMeta <==> has_suffix(unicode_lowercase(key@), "meta.md"@)
                && self.description@.len() == 0,
            r is FetchCover <==> !(has_suffix(unicode_lowercase(key@), "meta.md"@)
                && self.description@.len() == 0) && has_suffix(
                unicode_lowercase(key@),
                "cover.webp"@,
            ) && self.cover_image@.len() == 0,
    {
        let lower = to_lowercase(key);
        self.step_for_lowercase_key(lower.as_str())
    }

    /// What to do with an object whose lowercased key is `lower_key`.
    pub fn step_for_lowercase_key(&self, lower_key: &str) -> (r: ScanStep)
        ensures
            r is FetchMeta <==> has_suffix(lower_key@, "meta.md"@) && self.description@.len() == 0,
            r is FetchCover <==> !(has_suffix(lower_key@, "meta.md"@) && self.description@.len()
                == 0) && has_suffix(lower_key@, "cover.webp"@) && self.cover_image@.len() == 0,
    {
        if str_ends_with(lower_key, "meta.md") && self.description.as_str().unicode_len() == 0 {
            ScanStep::FetchMeta
        } else if str_ends_with(lower_key, "cover.webp")
            && self.cover_image.as_str().unicode_len() == 0 {
            ScanStep::FetchCover
        } else {
            ScanStep::Skip
        }
    }

    /// Takes title and description from a parsed `meta.md` (missing ones
    /// become empty).
    pub fn record_meta(&mut self, meta: MetaData)
        ensures
            final(self).title@ == match meta.title {
                Some(t) => t@,
                None => Seq::empty(),
            },
            final(self).description@ == match meta.description {
                Some(d) => d@,
                None => Seq::empty(),
            },
            final(self).cover_image == old(self).cover_image,
    {
        self.title = match meta.title {
            Some(t) => t,
            None => String::new(),
        };
        self.description = match meta.description {
            Some(d) => d,
            None => String::new(),
        };
    }

    /// Takes the cover image from the bytes of `cover.webp`.
    pub fn record_cover(&mut self, bytes: &[u8])
        requires
            base64_len(bytes@.len()) <= usize::MAX,
        ensures
            final(self).cover_image@ == webp_data_prefix() + base64_standard(bytes@),
            final(self).title == old(self).title,
            final(self).description == old(self).description,
    {
        self.cover_image = cover_data_url(bytes);
    }

    /// Description and cover are both known.
    pub fn is_complete(&self) -> (b: bool)
        ensures
            b == scan_complete(*self),
    {
        self.description.as_str().unicode_len() != 0 && self.cover_image.as_str().unicode_len()
            != 0
    }

    /// The gallery found in directory `dir` (a listing prefix such as
    /// `gallery/sunset/`), if a cover was found.
    pub fn finish(self, dir: &str) -> (r: Option<GalleryItem>)
        ensures
            r is Some <==> self.cover_image@.len() != 0,
            r matches Some(item) ==> {
                &&& item.name@ == trim_end_by(dir@, is_char('/'))
                &&& item.title == self.title
                &&& item.description == self.description
                &&& item.cover_image == self.cover_image
            },
    {
        if self.cover_image.as_str().unicode_len() == 0 {
            None
        } else {
            let name = trim_end_char(dir, '/');
            Some(
                GalleryItem {
                    name,
                    title: self.title,
                    description: self.description,
                    cover_image: self.cover_image,
                },
            )
        }
    }
}

/// `meta.md` is read whenever no description has been found, whatever the
/// cover and title found so far; `cover.webp` is read whenever no cover has
/// been found and the key is not a `meta.md` being read.
pub proof fn lemma_scan_reads_what_is_missing(scan: GalleryScan, key: Seq<char>)
    ensures
        has_suffix(unicode_lowercase(key), "meta.md"@) && scan.description@.len() == 0
            ==> wants_meta(scan, key),
        !has_suffix(unicode_lowercase(key), "meta.md"@) ==> !wants_meta(scan, key),
        scan.description@.len() != 0 ==> !wants_meta(scan, key),
        has_suffix(unicode_lowercase(key), "cover.webp"@) && scan.cover_image@.len() == 0
            ==> wants_cover(scan, key),
        !has_suffix(unicode_lowercase(key), "cover.webp"@) || scan.cover_image@.len() != 0
            ==> !wants_cover(scan, key),
{
}

/// Once description and cover are known, no object is fetched any more.
pub proof fn lemma_complete_scan_fetches_nothing(scan: GalleryScan, key: Seq<char>)
    requires
        scan_complete(scan),
    ensures
        !wants_meta(scan, key),
        !wants_cover(scan, key),
{
}

/// A cover, once found, is never read again.
pub proof fn lemma_cover_is_read_once(scan: GalleryScan, key: Seq<char>)
    requires
        scan.cover_image@.len() != 0,
    ensures
        !wants_cover(scan, key),
{
}

} // verus!
