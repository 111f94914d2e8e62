use blog_backend::gallery::{
    cover_data_url, extract_gallery_dir, gallery_list_prefix, gallery_page, gallery_prefix,
    gallery_response, image_keys, meta_yaml_block, paginate, resolve_page, webp_data_url, GalleryEntity,
    GalleryScan, MetaBlockError, MetaData, PaginationParams, ScanStep,
};

fn keys(names: &[&str]) -> Vec<String> {
    names.iter().map(|s| s.to_string()).collect()
}

#[test]
fn gallery_dir_is_everything_before_the_last_slash() {
    assert_eq!(extract_gallery_dir("gallery/sunset/cover.webp"), "gallery/sunset");
    assert_eq!(extract_gallery_dir("cover.webp"), "cover.webp");
    assert_eq!(extract_gallery_dir("gallery/"), "gallery");
    assert_eq!(extract_gallery_dir("/a"), "");
}

#[test]
fn listing_prefixes() {
    assert_eq!(gallery_list_prefix("gallery/sunset/cover.webp"), "gallery/sunset/");
    assert_eq!(gallery_prefix("sunset"), "gallery/sunset/");
}

#[test]
fn meta_file_is_not_an_image() {
    let all = keys(&["g/a.webp", "g/meta.md", "g/b.webp", "g/Meta.MD", "g/othermeta.md"]);
    assert_eq!(image_keys(&all), keys(&["g/a.webp", "g/b.webp", "g/Meta.MD"]));
}

#[test]
fn pages_split_the_listing() {
    let all = keys(&["a", "b", "c", "d", "e"]);
    assert_eq!(paginate(&all, 1, 2), keys(&["a", "b"]));
    assert_eq!(paginate(&all, 2, 2), keys(&["c", "d"]));
    assert_eq!(paginate(&all, 3, 2), keys(&["e"]));
    assert_eq!(paginate(&all, 4, 2), keys(&[]));
    assert_eq!(paginate(&all, 1, 0), keys(&[]));
}

#[test]
fn page_defaults_are_first_page_of_nine() {
    let params = PaginationParams { page: None, page_size: None };
    assert_eq!(resolve_page(&params), (1, 9));
    let all: Vec<String> = (0..12).map(|i| format!("k{}", i)).collect();
    assert_eq!(gallery_page(&all, &params).len(), 9);
    let second = PaginationParams { page: Some(2), page_size: None };
    assert_eq!(gallery_page(&all, &second), keys(&["k9", "k10", "k11"]));
}

#[test]
fn cover_is_a_webp_data_url() {
    assert_eq!(cover_data_url(b"hi"), "data:image/webp;base64,aGk=");
    assert_eq!(cover_data_url(b""), "data:image/webp;base64,");
    assert_eq!(cover_data_url(b"abc"), "data:image/webp;base64,YWJj");
}

#[test]
fn gallery_row_becomes_a_response() {
    let entity = GalleryEntity {
        id: 1,
        title: "Sunset".to_string(),
        description: "Evening".to_string(),
        cover_url: "gallery/sunset/cover.webp".to_string(),
        created_at: chrono::NaiveDateTime::default(),
        updated_at: chrono::NaiveDateTime::default(),
    };
    let r = gallery_response(&entity, b"hi");
    assert_eq!(r.name, "gallery/sunset");
    assert_eq!(r.title, "Sunset");
    assert_eq!(r.description, "Evening");
    assert_eq!(r.cover_image, "data:image/webp;base64,aGk=");
}

#[test]
fn meta_block_is_found_between_fences() {
    match meta_yaml_block("---\ntitle: Sunset\ndescription: Evening\n---\nrest") {
        Ok(y) => assert_eq!(y, "title: Sunset\ndescription: Evening"),
        Err(_) => panic!("block expected"),
    }
}

#[test]
fn text_without_meta_block_is_refused() {
    assert!(matches!(meta_yaml_block("no block here"), Err(MetaBlockError::NotFound)));
    assert!(matches!(meta_yaml_block("--- only one"), Err(MetaBlockError::NotFound)));
}

#[test]
fn scan_fetches_meta_and_cover_once() {
    let mut scan = GalleryScan::new();
    assert!(matches!(scan.step("gallery/x/META.md"), ScanStep::FetchMeta));
    assert!(matches!(scan.step("gallery/x/cover.webp"), ScanStep::FetchCover));
    assert!(matches!(scan.step("gallery/x/1.webp"), ScanStep::Skip));
    scan.record_meta(MetaData { title: Some("X".to_string()), description: Some("D".to_string()) });
    assert!(matches!(scan.step("gallery/x/meta.md"), ScanStep::Skip));
    assert!(!scan.is_complete());
    scan.record_cover(b"hi");
    assert!(matches!(scan.step("gallery/x/Cover.WEBP"), ScanStep::Skip));
    assert!(scan.is_complete());
    let item = scan.finish("gallery/x/").expect("a cover was found");
    assert_eq!(item.name, "gallery/x");
    assert_eq!(item.title, "X");
    assert_eq!(item.description, "D");
    assert_eq!(item.cover_image, "data:image/webp;base64,aGk=");
}

#[test]
fn meta_without_description_is_read_again() {
    let mut scan = GalleryScan::new();
    scan.record_meta(MetaData { title: Some("X".to_string()), description: None });
    assert_eq!(scan.title, "X");
    assert_eq!(scan.description, "");
    assert!(matches!(scan.step("g/meta.md"), ScanStep::FetchMeta));
}

#[test]
fn gallery_without_cover_is_left_out() {
    let mut scan = GalleryScan::new();
    scan.record_meta(MetaData { title: None, description: Some("D".to_string()) });
    assert!(scan.finish("gallery/x/").is_none());
}

#[test]
fn data_url_prefixes_the_encoded_text() {
    assert_eq!(webp_data_url("QUJD"), "data:image/webp;base64,QUJD");
}

#[test]
fn lowercased_keys_decide_the_step() {
    let scan = GalleryScan::new();
    assert!(matches!(scan.step_for_lowercase_key("g/meta.md"), ScanStep::FetchMeta));
    assert!(matches!(scan.step_for_lowercase_key("g/META.md"), ScanStep::Skip));
    assert!(matches!(scan.step_for_lowercase_key("g/cover.webp"), ScanStep::FetchCover));
}
