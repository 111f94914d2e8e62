//! The photo wall: photos picked at random from all galleries, and a
//! short-lived cache of the last pick.
use vstd::prelude::*;
use rand::seq::SliceRandom;
use crate::gallery::{image_keys, image_keys_of};

verus! {

#[verifier::external_type_specification]
#[verifier::external_body]
pub struct ExInstant(std::time::Instant);

#[verifier::external_type_specification]
#[verifier::external_body]
pub struct ExThreadRng(rand::rngs::ThreadRng);

/// One photo of the wall.
#[derive(Debug, Clone)]
pub struct PhotoResponse {
    /// Position on the wall, counted from 1.
    pub id: i32,
    /// Object key of the image.
    pub path: String,
    pub title: Option<String>,
    pub width: Option<i32>,
    pub height: Option<i32>,
}

/// The photo wall.
#[derive(Debug)]
pub struct PhotosResponse {
    pub photos: Vec<PhotoResponse>,
}

/// Query `?count=20`.
pub struct PhotoQueryParams {
    pub count: Option<i64>,
}

// ---------------------------------------------------------------- how many photos

/// Fewest photos on a wall.
pub open spec fn min_photos() -> i64 {
    15
}

/// Most photos on a wall.
pub open spec fn max_photos() -> i64 {
    30
}

/// Photos on a wall when the query names no count.
pub open spec fn default_photos() -> i64 {
    20
}

/// `count` brought into `15..=30` (`i64::clamp`).
pub open spec fn clamp_count(count: i64) -> i64 {
    if count < min_photos() {
        min_photos()
    } else if count > max_photos() {
        max_photos()
    } else {
        count
    }
}

/// A requested photo count brought into `15..=30`.
pub fn clamp_photo_count(count: i64) -> (r: i64)
    ensures
        r == clamp_count(count),
        min_photos() <= r <= max_photos(),
{
    if count < 15 {
        15
    } else if count > 30 {
        30
    } else {
        count
    }
}

/// The number of photos a query asks for: its count (20 when absent),
/// brought into `15..=30`.
pub fn photo_count(count: Option<i64>) -> (r: usize)
    ensures
        r as int == clamp_count(
            match count {
                Some(c) => c,
                None => default_photos(),
            },
        ),
{
    let c = match count {
        Some(c) => c,
        None => 20,
    };
    clamp_photo_count(c) as usize
}

/// Clamping keeps counts already in range and is idempotent.
pub proof fn lemma_clamp_count(count: i64)
    ensures
        min_photos() <= count <= max_photos() ==> clamp_count(count) == count,
        clamp_count(clamp_count(count)) == clamp_count(count),
{
}

// ---------------------------------------------------------------- picking photos

/// The wall built from `keys` in order: the first `count` keys (all of them
/// when there are fewer), numbered from 1.
pub open spec fn numbered_wall(keys: Seq<String>, count: nat, wall: Seq<PhotoResponse>) -> bool {
    &&& wall.len() == if count < keys.len() {
        count
    } else {
        keys.len()
    }
    &&& forall|i: int|
        0 <= i < wall.len() ==> {
            &&& (#[trigger] wall[i]).id == i + 1
            &&& wall[i].path == keys[i]
            &&& wall[i].title is None
            &&& wall[i].width is None
            &&& wall[i].height is None
        }
}

/// Numbers the first `count` keys as photos `1, 2, ...`.
pub fn number_photos(keys: Vec<String>, count: usize) -> (r: Vec<PhotoResponse>)
    requires
        count <= i32::MAX,
    ensures
        numbered_wall(keys@, count as nat, r@),
{
    let n = if count < keys.len() {
        count
    } else {
        keys.len()
    };
    let mut r: Vec<PhotoResponse> = Vec::new();
    let mut i: usize = 0;
    while i < n
        invariant
            i <= n <= keys@.len(),
            n <= i32::MAX,
            n == if count < keys@.len() {
                count as nat
            } else {
                keys@.len()
            },
            r@.len() == i,
            forall|j: int|
                0 <= j < i ==> {
                    &&& (#[trigger] r@[j]).id == j + 1
                    &&& r@[j].path == keys@[j]
                    &&& r@[j].title is None
                    &&& r@[j].width is None
                    &&& r@[j].height is None
                },
        decreases n - i,
    {
        let id = i as i32 + 1;
        r.push(
            PhotoResponse {
                id,
                path: keys[i].clone(),
                title: None,
                width: None,
                height: None,
            },
        );
        i = i + 1;
    }
    r
}

/// `rand::thread_rng`: the thread's random number generator.
#[verifier::external_body]
fn thread_rng() -> rand::rngs::ThreadRng {
    rand::thread_rng()
}

/// `SliceRandom::shuffle` on the keys. Claimed: the keys come back in some
/// order, each as often as before (the crate swaps elements in place).
/// Which order is left to chance.
#[verifier::external_body]
fn shuffle_keys(keys: &mut Vec<String>, rng: &mut rand::rngs::ThreadRng)
    ensures
        final(keys)@.len() == old(keys)@.len(),
        final(keys)@.to_multiset() == old(keys)@.to_multiset(),
{
    keys.as_mut_slice().shuffle(rng);
}

/// `wall` is the numbered wall of some ordering of `keys`.
pub open spec fn drawn_wall(keys: Seq<String>, count: nat, wall: Seq<PhotoResponse>) -> bool {
    exists|order: Seq<String>|
        order.to_multiset() == keys.to_multiset() && numbered_wall(order, count, wall)
}

/// A photo wall of `count` keys picked at random: the keys are shuffled and
/// the first `count` of that order are numbered from 1.
pub fn pick_photo_wall(keys: Vec<String>, count: usize) -> (r: Vec<PhotoResponse>)
    requires
        count <= i32::MAX,
    ensures
        drawn_wall(keys@, count as nat, r@),
{
    let mut keys = keys;
    let mut rng = thread_rng();
    shuffle_keys(&mut keys, &mut rng);
    let ghost order = keys@;
    let r = number_photos(keys, count);
    assert(order.to_multiset() == order.to_multiset() && numbered_wall(order, count as nat, r@));
    assert(drawn_wall(order, count as nat, r@));
    r
}

/// The photo wall drawn from the keys listed under all galleries: only
/// image keys (no `meta.md`) are drawn. `None` stands for the empty answer
/// `{ "photos": [] }`, which is not cached: the pool holds no image.
pub fn photo_wall_from_pool(keys: Vec<String>, count: usize) -> (r: Option<Vec<PhotoResponse>>)
    requires
        count <= i32::MAX,
    ensures
        r is None <==> image_keys_of(keys@).len() == 0,
        r matches Some(wall) ==> drawn_wall(image_keys_of(keys@), count as nat, wall@),
{
    let images = image_keys(&keys);
    if images.len() == 0 {
        None
    } else {
        Some(pick_photo_wall(images, count))
    }
}

/// A wall never repeats a key more often than the keys hold it: its paths
/// form a sub-multiset of the keys.
pub proof fn lemma_wall_draws_from_keys(
    keys: Seq<String>,
    order: Seq<String>,
    count: nat,
    wall: Seq<PhotoResponse>,
)
    requires
        order.to_multiset() == keys.to_multiset(),
        numbered_wall(order, count, wall),
    ensures
        wall.map_values(|p: PhotoResponse| p.path).to_multiset().subset_of(keys.to_multiset()),
{
    let paths = wall.map_values(|p: PhotoResponse| p.path);
    assert(paths =~= order.take(wall.len() as int));
    vstd::seq_lib::lemma_multiset_commutative(order.take(wall.len() as int), order.skip(wall.len() as int));
    assert(order.take(wall.len() as int) + order.skip(wall.len() as int) =~= order);
}

/// Photos of a wall give width and height both or neither (here neither:
/// the front end picks a ratio).
pub proof fn lemma_wall_sizes_paired(keys: Seq<String>, count: nat, wall: Seq<PhotoResponse>)
    requires
        numbered_wall(keys, count, wall),
    ensures
        forall|i: int|
            0 <= i < wall.len() ==> ((#[trigger] wall[i]).width is Some <==> wall[i].height is Some),
{
}

// ---------------------------------------------------------------- the cache

/// The last wall and when it was made.
struct CacheEntry {
    photos: Vec<PhotoResponse>,
    created_at: std::time::Instant,
}

/// In-memory cache of the last photo wall, valid for `ttl_secs` seconds.
pub struct PhotoCache {
    entry: Option<CacheEntry>,
    ttl_secs: u64,
}

/// `std::time::Instant::now`. Depends on the clock: nothing is stated.
#[verifier::external_body]
fn instant_now() -> std::time::Instant {
    std::time::Instant::now()
}

/// `std::time::Instant::elapsed`. Depends on the clock: nothing is stated.
#[verifier::external_body]
fn instant_elapsed(t: &std::time::Instant) -> core::time::Duration {
    t.elapsed()
}

/// `std::time::Duration::as_secs`. The duration is opaque here, so nothing
/// is stated of the number of whole seconds it returns.
#[verifier::external_body]
fn duration_secs(d: &core::time::Duration) -> u64 {
    d.as_secs()
}

/// `age` is a wall's age by the clock: the whole seconds
/// (`Duration::as_secs`) of what `Instant::elapsed` gave for the instant
/// `made` at which the wall was set.
pub closed spec fn clock_age(made: std::time::Instant, age: u64) -> bool {
    exists|d: core::time::Duration|
        #[trigger] call_ensures(instant_elapsed, (&made,), d) && call_ensures(
            duration_secs,
            (&d,),
            age,
        )
}

/// `t` is what `Instant::now` gave.
pub closed spec fn clock_now(t: std::time::Instant) -> bool {
    call_ensures(instant_now, (), t)
}

/// `r` is what a read of `cache` answers by the clock: nothing when no wall
/// is held, else `read_at` of the held wall's age by the clock.
pub open spec fn clock_answer(cache: PhotoCache, r: Option<Seq<PhotoResponse>>) -> bool {
    match cache.made_at() {
        None => r is None,
        Some(t) => exists|age: u64|
            #[trigger] clock_age(t, age) && r == cache.read_at(age),
    }
}

/// `after` is what refreshing `before` with `photos` leaves by the clock:
/// the new wall when none was held, else `refresh_at` at the held wall's
/// age by the clock.
pub open spec fn clock_refresh(
    before: PhotoCache,
    after: PhotoCache,
    photos: Seq<PhotoResponse>,
) -> bool {
    &&& after.ttl() == before.ttl()
    &&& match before.made_at() {
        None => after.cached() == Some(photos),
        Some(t) => exists|age: u64|
            #[trigger] clock_age(t, age) && after.cached() == if before.read_at(age) is None {
                Some(photos)
            } else {
                before.cached()
            },
    }
}

impl PhotoCache {
    /// When the held wall was set, if one is held.
    pub closed spec fn made_at(&self) -> Option<std::time::Instant> {
        match self.entry {
            Some(e) => Some(e.created_at),
            None => None,
        }
    }

    /// The wall held, if any (fresh or not).
    pub closed spec fn cached(&self) -> Option<Seq<PhotoResponse>> {
        match self.entry {
            Some(e) => Some(e.photos@),
            None => None,
        }
    }

    /// Seconds a wall stays fresh.
    pub closed spec fn ttl(&self) -> u64 {
        self.ttl_secs
    }

    /// What a read gives back when the held wall is `elapsed` seconds old:
    /// the wall while it is younger than the time to live, else nothing.
    pub open spec fn read_at(&self, elapsed: u64) -> Option<Seq<PhotoResponse>> {
        match self.cached() {
            Some(p) => if elapsed < self.ttl() {
                Some(p)
            } else {
                None
            },
            None => None,
        }
    }

    /// An empty cache whose walls stay fresh for `ttl_secs` seconds.
    pub fn new(ttl_secs: u64) -> (c: PhotoCache)
        ensures
            c.cached() is None,
            c.ttl() == ttl_secs,
    {
        PhotoCache { entry: None, ttl_secs }
    }

    /// The held wall, given that it is `elapsed_secs` seconds old.
    pub fn lookup(&self, elapsed_secs: u64) -> (r: Option<&[PhotoResponse]>)
        ensures
            match r {
                Some(s) => self.read_at(elapsed_secs) == Some(s@),
                None => self.read_at(elapsed_secs) is None,
            },
    {
        match &self.entry {
            Some(e) => {
                if elapsed_secs < self.ttl_secs {
                    Some(e.photos.as_slice())
                } else {
                    None
                }
            },
            None => None,
        }
    }

    /// The held wall if it is still fresh by the clock. Whatever the clock
    /// says, a wall comes back only if one is held, and it is the held one;
    /// the answer is what `read_at` gives for the wall's age by the clock.
    pub fn get(&self) -> (r: Option<&[PhotoResponse]>)
        ensures
            self.cached() is None ==> r is None,
            r matches Some(s) ==> self.cached() == Some(s@),
            exists|age: u64|
                match r {
                    Some(s) => #[trigger] self.read_at(age) == Some(s@),
                    None => self.read_at(age) is None,
                },
            clock_answer(
                *self,
                match r {
                    Some(s) => Some(s@),
                    None => None,
                },
            ),
    {
        match &self.entry {
            Some(e) => {
                let d = instant_elapsed(&e.created_at);
                let age = duration_secs(&d);
                assert(call_ensures(instant_elapsed, (&e.created_at,), d) && call_ensures(
                    duration_secs,
                    (&d,),
                    age,
                ));
                assert(clock_age(e.created_at, age));
                let r = self.lookup(age);
                assert(match r {
                    Some(s) => self.read_at(age) == Some(s@),
                    None => self.read_at(age) is None,
                });
                assert(self.made_at() == Some(e.created_at));
                let ghost ans = match r {
                    Some(s) => Some(s@),
                    None => None,
                };
                assert(ans == self.read_at(age));
                assert(clock_age(self.made_at()->0, age) && ans == self.read_at(age));
                assert(clock_age(e.created_at, age) && match r {
                    Some(s) => Some(s@),
                    None => None,
                } == self.read_at(age));
                assert(clock_answer(
                    *self,
                    match r {
                        Some(s) => Some(s@),
                        None => None,
                    },
                ));
                r
            },
            None => {
                assert(self.read_at(0) is None);
                assert(self.made_at() is None);
                assert(clock_answer(*self, None));
                None
            },
        }
    }

    /// Holds `photos`, made now.
    pub fn set(&mut self, photos: Vec<PhotoResponse>)
        ensures
            final(self).cached() == Some(photos@),
            final(self).ttl() == old(self).ttl(),
            final(self).made_at() matches Some(t) && clock_now(t),
    {
        let now = instant_now();
        assert(call_ensures(instant_now, (), now));
        self.entry = Some(CacheEntry { photos, created_at: now });
    }

    /// Holds `photos` unless a fresh wall is already held (the first wall
    /// made within a time to live wins). Whether the held wall is fresh is
    /// read from the clock; the outcome is `refresh_at` at that age.
    pub fn refresh(&mut self, photos: Vec<PhotoResponse>)
        ensures
            final(self).ttl() == old(self).ttl(),
            old(self).cached() is None ==> final(self).cached() == Some(photos@),
            exists|age: u64|
                final(self).cached() == if #[trigger] old(self).read_at(age) is None {
                    Some(photos@)
                } else {
                    old(self).cached()
                },
            clock_refresh(*old(self), *final(self), photos@),
    {
        let ghost before = *self;
        let ghost made = self.made_at();
        let age = match &self.entry {
            Some(e) => {
                let d = instant_elapsed(&e.created_at);
                let age = duration_secs(&d);
                assert(call_ensures(instant_elapsed, (&e.created_at,), d) && call_ensures(
                    duration_secs,
                    (&d,),
                    age,
                ));
                assert(clock_age(e.created_at, age));
                assert(made == Some(e.created_at));
                age
            },
            None => 0,
        };
        self.refresh_at(photos, age);
        proof {
            if let Some(t) = made {
                assert(clock_age(t, age) && self.cached() == if before.read_at(age) is None {
                    Some(photos@)
                } else {
                    before.cached()
                });
            }
        }
    }

    /// Holds `photos` unless the held wall is still fresh at age
    /// `elapsed_secs`.
    pub fn refresh_at(&mut self, photos: Vec<PhotoResponse>, elapsed_secs: u64)
        ensures
            final(self).ttl() == old(self).ttl(),
            final(self).cached() == if old(self).read_at(elapsed_secs) is None {
                Some(photos@)
            } else {
                old(self).cached()
            },
    {
        let fresh = self.lookup(elapsed_secs).is_some();
        if !fresh {
            self.set(photos);
        }
    }
}

/// A wall is held exactly when it has a setting time.
pub proof fn lemma_held_wall_has_time(cache: PhotoCache)
    ensures
        cache.made_at() is Some <==> cache.cached() is Some,
{
}

/// A read by the clock serves the held wall only while the clock says it is
/// younger than the time to live, and answers nothing for a held wall only
/// when the clock says it is at least that old.
pub proof fn lemma_get_serves_only_fresh_walls(cache: PhotoCache, r: Option<Seq<PhotoResponse>>)
    requires
        clock_answer(cache, r),
    ensures
        cache.cached() is None ==> r is None,
        r matches Some(w) ==> cache.cached() == Some(w) && exists|age: u64|
            #[trigger] clock_age(cache.made_at()->0, age) && age < cache.ttl(),
        cache.cached() is Some && r is None ==> exists|age: u64|
            #[trigger] clock_age(cache.made_at()->0, age) && age >= cache.ttl(),
{
    lemma_held_wall_has_time(cache);
}

/// A refresh by the clock keeps a held wall only while the clock says it is
/// younger than the time to live; otherwise, or when nothing is held, the
/// new wall is held.
pub proof fn lemma_refresh_replaces_wall_by_clock(
    before: PhotoCache,
    after: PhotoCache,
    photos: Seq<PhotoResponse>,
)
    requires
        clock_refresh(before, after, photos),
    ensures
        before.cached() is None ==> after.cached() == Some(photos),
        after.cached() == Some(photos) || (after.cached() == before.cached() && exists|age: u64|
            #[trigger] clock_age(before.made_at()->0, age) && age < before.ttl()),
        after.ttl() == before.ttl(),
{
    lemma_held_wall_has_time(before);
}

/// Once the held wall has expired, a refresh takes the new wall, and it is
/// then served unchanged until it expires in turn; a wall still fresh is
/// kept.
pub proof fn lemma_refresh_replaces_expired_wall(
    before: PhotoCache,
    after: PhotoCache,
    photos: Seq<PhotoResponse>,
    elapsed: u64,
)
    requires
        after.ttl() == before.ttl(),
        after.cached() == if before.read_at(elapsed) is None {
            Some(photos)
        } else {
            before.cached()
        },
    ensures
        before.read_at(elapsed) is None ==> forall|age: u64|
            age < after.ttl() ==> #[trigger] after.read_at(age) == Some(photos),
        before.read_at(elapsed) is Some ==> after.cached() == before.cached(),
{
}

/// A read after a write gives back what was written, while it is younger
/// than the time to live, and nothing after.
pub proof fn lemma_read_after_write(cache: PhotoCache, photos: Seq<PhotoResponse>, elapsed: u64)
    requires
        cache.cached() == Some(photos),
    ensures
        elapsed < cache.ttl() ==> cache.read_at(elapsed) == Some(photos),
        elapsed >= cache.ttl() ==> cache.read_at(elapsed) is None,
{
}

/// A new cache gives nothing back, and a cache with a time to live of zero
/// never gives anything back.
pub proof fn lemma_nothing_to_read(cache: PhotoCache, elapsed: u64)
    requires
        cache.cached() is None || cache.ttl() == 0,
    ensures
        cache.read_at(elapsed) is None,
{
}

/// Freshness only runs out: a wall too old to read stays too old.
pub proof fn lemma_staleness_is_permanent(cache: PhotoCache, older: u64, newer: u64)
    requires
        newer <= older,
        cache.read_at(newer) is None,
    ensures
        cache.read_at(older) is None,
{
}

} // verus!
