use blog_backend::photo::{
    clamp_photo_count, number_photos, photo_count, photo_wall_from_pool, pick_photo_wall,
    PhotoCache, PhotoResponse,
};

fn keys(n: usize) -> Vec<String> {
    (0..n).map(|i| format!("gallery/g/{}.webp", i)).collect()
}

fn photo(id: i32, path: &str) -> PhotoResponse {
    PhotoResponse { id, path: path.to_string(), title: None, width: None, height: None }
}

#[test]
fn counts_are_clamped() {
    assert_eq!(clamp_photo_count(-5), 15);
    assert_eq!(clamp_photo_count(15), 15);
    assert_eq!(clamp_photo_count(22), 22);
    assert_eq!(clamp_photo_count(1000), 30);
    assert_eq!(photo_count(None), 20);
    assert_eq!(photo_count(Some(3)), 15);
    assert_eq!(photo_count(Some(31)), 30);
}

#[test]
fn photos_are_numbered_from_one() {
    let wall = number_photos(keys(3), 2);
    assert_eq!(wall.len(), 2);
    assert_eq!(wall[0].id, 1);
    assert_eq!(wall[0].path, "gallery/g/0.webp");
    assert_eq!(wall[1].id, 2);
    assert_eq!(wall[1].path, "gallery/g/1.webp");
    assert!(wall[1].title.is_none() && wall[1].width.is_none() && wall[1].height.is_none());
}

#[test]
fn fewer_keys_than_asked_gives_all() {
    assert_eq!(number_photos(keys(4), 20).len(), 4);
    assert_eq!(number_photos(Vec::new(), 20).len(), 0);
}

#[test]
fn random_wall_draws_distinct_keys() {
    let all = keys(40);
    let wall = pick_photo_wall(all.clone(), 20);
    assert_eq!(wall.len(), 20);
    let mut seen: Vec<&String> = Vec::new();
    for (i, p) in wall.iter().enumerate() {
        assert_eq!(p.id, i as i32 + 1);
        assert!(all.contains(&p.path));
        assert!(!seen.contains(&&p.path));
        seen.push(&p.path);
    }
}

#[test]
fn new_cache_is_empty() {
    let cache = PhotoCache::new(180);
    assert!(cache.get().is_none());
    assert!(cache.lookup(0).is_none());
}

#[test]
fn cache_gives_back_what_was_set_while_fresh() {
    let mut cache = PhotoCache::new(180);
    cache.set(vec![photo(1, "a"), photo(2, "b")]);
    let got = cache.get().expect("fresh");
    assert_eq!(got.len(), 2);
    assert_eq!(got[1].path, "b");
    assert_eq!(cache.lookup(179).map(|s| s.len()), Some(2));
    assert!(cache.lookup(180).is_none());
}

#[test]
fn zero_ttl_cache_never_answers() {
    let mut cache = PhotoCache::new(0);
    cache.set(vec![photo(1, "a")]);
    assert!(cache.get().is_none());
}

#[test]
fn refresh_keeps_a_fresh_wall() {
    let mut cache = PhotoCache::new(180);
    cache.refresh(vec![photo(1, "first")]);
    cache.refresh(vec![photo(1, "second")]);
    assert_eq!(cache.get().expect("fresh")[0].path, "first");
}

#[test]
fn refresh_fills_an_empty_cache() {
    let mut cache = PhotoCache::new(180);
    cache.refresh(vec![photo(1, "only")]);
    assert_eq!(cache.get().expect("fresh")[0].path, "only");
}

#[test]
fn random_wall_is_shuffled() {
    let all = keys(40);
    let wall = pick_photo_wall(all.clone(), 30);
    let in_order: Vec<&String> = all.iter().take(30).collect();
    let picked: Vec<&String> = wall.iter().map(|p| &p.path).collect();
    assert_ne!(picked, in_order);
}

#[test]
fn pool_without_images_gives_empty_answer() {
    assert!(photo_wall_from_pool(Vec::new(), 20).is_none());
    assert!(photo_wall_from_pool(vec!["gallery/g/meta.md".to_string()], 20).is_none());
}

#[test]
fn pool_draws_only_images() {
    let mut pool = keys(3);
    pool.push("gallery/g/meta.md".to_string());
    let wall = photo_wall_from_pool(pool, 20).expect("images present");
    assert_eq!(wall.len(), 3);
    assert!(wall.iter().all(|p| !p.path.ends_with("meta.md")));
}

#[test]
fn refresh_at_replaces_only_an_expired_wall() {
    let mut cache = PhotoCache::new(180);
    cache.set(vec![photo(1, "old")]);
    cache.refresh_at(vec![photo(1, "new")], 10);
    assert_eq!(cache.lookup(10).expect("fresh")[0].path, "old");
    cache.refresh_at(vec![photo(1, "new")], 180);
    assert_eq!(cache.lookup(0).expect("fresh")[0].path, "new");
}
