use ra_db::paths::resolve_path;

#[test]
fn resolve_path_from_single_segment() {
    assert_eq!(resolve_path("lib.rs", "foo.rs"), "foo.rs");
    assert_eq!(resolve_path("", "foo.rs"), "foo.rs");
}

#[test]
fn resolve_path_drops_anchor_file_name() {
    assert_eq!(resolve_path("a/b/mod.rs", "c.rs"), "a/b/c.rs");
}

#[test]
fn resolve_path_normalizes() {
    assert_eq!(resolve_path("a/b/mod.rs", "../c.rs"), "a/c.rs");
    assert_eq!(resolve_path("a/mod.rs", "./x/../y.rs"), "a/y.rs");
}

#[test]
fn resolve_path_drops_leading_separator() {
    assert_eq!(resolve_path("a/mod.rs", "/c.rs"), "a/c.rs");
}
