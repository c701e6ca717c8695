use server::content::{flags_of, is_deleted, PostContent};

#[test]
fn content_renders_markdown() {
    let c = PostContent::render("# Hi".to_string());
    assert_eq!(c.src, "# Hi");
    assert_eq!(c.html, "<h1>Hi</h1>\n");
}

#[test]
fn deleted_mark_is_the_lowest_flag() {
    assert!(is_deleted(1));
    assert!(is_deleted(3));
    assert!(!is_deleted(0));
    assert!(!is_deleted(2));
    assert_eq!(flags_of(true), 1);
    assert_eq!(flags_of(false), 0);
}
