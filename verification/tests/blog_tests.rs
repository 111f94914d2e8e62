use blog_backend::blog::{
    article_object_key, posts_in_types_query, publish_plan, type_keys_with_children,
    upload_title, uploaded_file_name, BlogPostType,
};

#[test]
fn article_keys() {
    assert_eq!(article_object_key("my-post"), "article/my-post.md");
    assert_eq!(article_object_key(""), "article/.md");
}

#[test]
fn upload_titles_drop_one_md_suffix() {
    assert_eq!(upload_title("post.md"), "post");
    assert_eq!(upload_title("post"), "post");
    assert_eq!(upload_title("post.md.md"), "post.md");
    assert_eq!(upload_title(".md"), "");
    assert_eq!(upload_title("异步.md"), "异步");
}

#[test]
fn uploads_without_name_are_untitled() {
    assert_eq!(uploaded_file_name(None), "untitled.md");
    assert_eq!(uploaded_file_name(Some("a.md")), "a.md");
}

#[test]
fn publish_plan_names_everything_after_the_title() {
    let plan = publish_plan("My First Post").expect("plan");
    assert_eq!(plan.title, "My First Post");
    assert_eq!(plan.object_key, "article/My First Post.md");
    assert_eq!(plan.file_url, "/My First Post");
    assert_eq!(plan.slug, "my-first-post");
}

#[test]
fn uploaded_article_is_read_back_by_its_title() {
    let title = upload_title("notes.md");
    let plan = publish_plan(&title).expect("plan");
    assert_eq!(plan.object_key, article_object_key("notes"));
}

fn child(key: &str) -> BlogPostType {
    BlogPostType { type_key: key.to_string(), name: key.to_uppercase(), parent_type: Some("rust".to_string()) }
}

#[test]
fn category_keys_put_the_parent_first() {
    let keys = type_keys_with_children("rust", &vec![child("async"), child("macros")]);
    assert_eq!(keys, vec!["rust".to_string(), "async".to_string(), "macros".to_string()]);
    assert_eq!(type_keys_with_children("web", &Vec::new()), vec!["web".to_string()]);
}

#[test]
fn query_has_one_placeholder_per_key() {
    assert_eq!(posts_in_types_query(1), "SELECT * FROM blog_posts WHERE type IN ($1)");
    assert_eq!(posts_in_types_query(3), "SELECT * FROM blog_posts WHERE type IN ($1,$2,$3)");
    let q = posts_in_types_query(12);
    assert!(q.ends_with("$9,$10,$11,$12)"));
    assert_eq!(posts_in_types_query(0), "SELECT * FROM blog_posts WHERE type IN ()");
}
