use std::sync::Arc;

use ra_db::{
    CheckCanceled, CrateGraph, CrateId, Database, Edition, FileId, SourceDatabase, SourceRoot,
    SourceRootId, TextRange,
};

fn text(s: &str) -> Arc<String> {
    Arc::new(s.to_string())
}

/// Two source roots: root 0 holds `lib.rs`, `foo.rs`, `sub/mod.rs` and
/// `sub/bar.rs`; root 1 holds `other.rs`.
fn sample() -> Database {
    let mut db = Database::new();
    db.add_source_root(SourceRootId(0), false);
    db.add_source_root(SourceRootId(1), true);
    db.add_file(FileId(1), SourceRootId(0), "lib.rs".to_string(), text("mod foo;"));
    db.add_file(FileId(2), SourceRootId(0), "foo.rs".to_string(), text("fn foo() {}"));
    db.add_file(FileId(3), SourceRootId(0), "sub/mod.rs".to_string(), text("mod bar;"));
    db.add_file(FileId(4), SourceRootId(0), "sub/bar.rs".to_string(), text(""));
    db.add_file(FileId(5), SourceRootId(1), "other.rs".to_string(), text("struct S;"));
    db
}

fn tokens(s: &str) -> Vec<String> {
    s.split_whitespace().map(|t| t.to_string()).collect()
}

#[test]
fn parse_twice_gives_equal_trees() {
    let db = sample();
    let first = db.parse(FileId(2), tokens);
    let second = db.parse(FileId(2), tokens);
    assert_eq!(first, second);
    assert_eq!(first, vec!["fn".to_string(), "foo()".to_string(), "{}".to_string()]);
}

#[test]
fn parse_sees_the_current_text() {
    let mut db = sample();
    db.set_file_text(FileId(2), text("struct T;"));
    assert_eq!(db.parse(FileId(2), tokens), vec!["struct".to_string(), "T;".to_string()]);
}

#[test]
fn rename_then_resolve() {
    let mut db = sample();
    db.rename_file(FileId(2), "baz.rs".to_string(), text("fn baz() {}"));
    assert_eq!(*db.file_text(FileId(2)), "fn baz() {}");
    assert_eq!(db.file_relative_path(FileId(2)), "baz.rs");
    assert_eq!(db.resolve_relative_path(FileId(1), "baz.rs"), Some(FileId(2)));
    assert_eq!(db.resolve_relative_path(FileId(2), "baz.rs"), Some(FileId(2)));
    assert_eq!(db.resolve_relative_path(FileId(1), "foo.rs"), None);
}

#[test]
fn rename_then_resolve_from_subdirectory() {
    let mut db = sample();
    db.rename_file(FileId(4), "sub/baz.rs".to_string(), text("fn baz() {}"));
    assert_eq!(db.resolve_relative_path(FileId(3), "baz.rs"), Some(FileId(4)));
    assert_eq!(db.resolve_relative_path(FileId(1), "sub/baz.rs"), Some(FileId(4)));
    assert_eq!(db.resolve_relative_path(FileId(3), "bar.rs"), None);
}

#[test]
fn move_file_to_another_source_root() {
    let mut db = sample();
    let before = db.revision();
    db.move_file(FileId(2), SourceRootId(1), "moved.rs".to_string(), text("fn moved() {}"));
    assert_eq!(db.revision(), before + 1);
    assert_eq!(db.file_source_root(FileId(2)), SourceRootId(1));
    assert_eq!(db.file_relative_path(FileId(2)), "moved.rs");
    assert_eq!(*db.file_text(FileId(2)), "fn moved() {}");
    assert_eq!(db.resolve_relative_path(FileId(5), "moved.rs"), Some(FileId(2)));
    assert_eq!(db.resolve_relative_path(FileId(1), "foo.rs"), None);
    assert_eq!(db.resolve_relative_path(FileId(1), "moved.rs"), None);
    assert_eq!(db.source_root(SourceRootId(0)).walk(), vec![FileId(1), FileId(3), FileId(4)]);
    assert_eq!(db.source_root(SourceRootId(1)).walk(), vec![FileId(5), FileId(2)]);
}

#[test]
fn move_file_within_its_source_root() {
    let mut db = sample();
    db.move_file(FileId(4), SourceRootId(0), "top.rs".to_string(), text(""));
    assert_eq!(db.resolve_relative_path(FileId(1), "top.rs"), Some(FileId(4)));
    assert_eq!(db.resolve_relative_path(FileId(3), "bar.rs"), None);
}

#[test]
fn single_segment_anchor_resolves_against_root() {
    let db = sample();
    assert_eq!(db.resolve_relative_path(FileId(1), "foo.rs"), Some(FileId(2)));
    assert_eq!(db.resolve_relative_path(FileId(1), "sub/mod.rs"), Some(FileId(3)));
    assert_eq!(db.resolve_relative_path(FileId(1), "./foo.rs"), Some(FileId(2)));
}

#[test]
fn nested_anchor_resolves_against_its_directory() {
    let db = sample();
    assert_eq!(db.resolve_relative_path(FileId(3), "bar.rs"), Some(FileId(4)));
    assert_eq!(db.resolve_relative_path(FileId(3), "../foo.rs"), Some(FileId(2)));
    assert_eq!(db.resolve_relative_path(FileId(3), "foo.rs"), None);
    assert_eq!(db.resolve_relative_path(FileId(3), "/bar.rs"), Some(FileId(4)));
}

#[test]
fn nonexistent_path_is_none() {
    let db = sample();
    assert_eq!(db.resolve_relative_path(FileId(1), "nonexistent.rs"), None);
}

#[test]
fn other_source_root_is_not_searched() {
    let db = sample();
    assert_eq!(db.resolve_relative_path(FileId(1), "other.rs"), None);
    assert_eq!(db.resolve_relative_path(FileId(5), "other.rs"), Some(FileId(5)));
    assert_eq!(db.resolve_relative_path(FileId(5), "foo.rs"), None);
}

#[test]
fn source_root_crates_lists_crates_rooted_there() {
    let mut db = Database::new();
    db.add_source_root(SourceRootId(0), false);
    db.add_file(FileId(10), SourceRootId(0), "a.rs".to_string(), text(""));
    db.add_file(FileId(30), SourceRootId(0), "c.rs".to_string(), text(""));
    let mut graph = CrateGraph::new();
    let a = graph.add_crate_root(FileId(10), Edition::Edition2018);
    let b = graph.add_crate_root(FileId(20), Edition::Edition2015);
    assert_ne!(a, b);
    db.set_crate_graph(graph);
    assert_eq!(*db.source_root_crates(SourceRootId(0)), vec![a]);
}

#[test]
fn source_root_crates_lists_every_crate_of_a_shared_root() {
    let mut db = Database::new();
    db.add_source_root(SourceRootId(0), false);
    db.add_file(FileId(10), SourceRootId(0), "a.rs".to_string(), text(""));
    db.add_file(FileId(30), SourceRootId(0), "c.rs".to_string(), text(""));
    let mut graph = CrateGraph::new();
    let c0 = graph.add_crate_root(FileId(30), Edition::Edition2018);
    let c1 = graph.add_crate_root(FileId(20), Edition::Edition2018);
    let c2 = graph.add_crate_root(FileId(10), Edition::Edition2015);
    let c3 = graph.add_crate_root(FileId(10), Edition::Edition2018);
    assert_eq!(graph.crates_for_crate_root(FileId(10)), vec![c2, c3]);
    assert_eq!(graph.crates_for_crate_root(FileId(99)), vec![]);
    assert_ne!(c1, c0);
    db.set_crate_graph(graph);
    assert_eq!(*db.source_root_crates(SourceRootId(0)), vec![c2, c3, c0]);
}

#[test]
fn source_root_crates_empty_without_crate_roots() {
    let db = sample();
    assert!(db.source_root_crates(SourceRootId(1)).is_empty());
}

#[test]
fn announced_change_cancels_queries() {
    let mut db = sample();
    assert!(db.check_canceled().is_ok());
    assert_eq!(db.catch_canceled(|d: &Database| d.check_canceled().map(|_| 7u32)), Ok(7));
    let before = db.revision();
    db.request_cancellation();
    assert!(db.is_current_revision_canceled());
    assert!(db.check_canceled().is_err());
    let outcome = db.catch_canceled(|d: &Database| {
        d.check_canceled()?;
        Ok(d.parse(FileId(1), tokens))
    });
    assert_eq!(outcome, Err(ra_db::Canceled::new()));
    assert_eq!(*db.file_text(FileId(1)), "mod foo;");
    assert_eq!(db.revision(), before);
    db.set_file_text(FileId(1), text("mod bar;"));
    assert_eq!(db.revision(), before + 1);
    assert!(db.check_canceled().is_ok());
    assert_eq!(*db.file_text(FileId(1)), "mod bar;");
}

#[test]
fn every_change_advances_the_revision() {
    let mut db = Database::new();
    assert_eq!(db.revision(), 0);
    db.add_source_root(SourceRootId(3), false);
    assert_eq!(db.revision(), 1);
    db.add_file(FileId(1), SourceRootId(3), "main.rs".to_string(), text("fn main() {}"));
    assert_eq!(db.revision(), 2);
    db.set_crate_graph(CrateGraph::new());
    assert_eq!(db.revision(), 3);
    db.remove_file(FileId(1));
    assert_eq!(db.revision(), 4);
}

#[test]
fn removed_file_no_longer_resolves() {
    let mut db = sample();
    db.remove_file(FileId(2));
    assert_eq!(db.resolve_relative_path(FileId(1), "foo.rs"), None);
    assert_eq!(db.source_root(SourceRootId(0)).walk(), vec![FileId(1), FileId(3), FileId(4)]);
}

#[test]
fn input_accessors() {
    let db = sample();
    assert_eq!(db.file_source_root(FileId(5)), SourceRootId(1));
    assert_eq!(db.file_relative_path(FileId(3)), "sub/mod.rs");
    assert!(db.source_root(SourceRootId(1)).is_library());
    assert!(!db.source_root(SourceRootId(0)).is_library());
    assert_eq!(db.source_root(SourceRootId(0)).walk(), vec![FileId(1), FileId(2), FileId(3), FileId(4)]);
}

#[test]
fn source_root_insert_and_remove() {
    let mut root = SourceRoot::new();
    root.insert_file("a.rs".to_string(), FileId(1));
    root.insert_file("b.rs".to_string(), FileId(2));
    root.insert_file("a.rs".to_string(), FileId(3));
    assert_eq!(root.file_by_relative_path(&"a.rs".to_string()), Some(FileId(3)));
    assert_eq!(root.walk(), vec![FileId(3), FileId(2)]);
    root.remove_file(&"a.rs".to_string());
    assert_eq!(root.file_by_relative_path(&"a.rs".to_string()), None);
    assert_eq!(root.walk(), vec![FileId(2)]);
    root.remove_file(&"missing.rs".to_string());
    assert_eq!(root.walk(), vec![FileId(2)]);
    assert!(SourceRoot::new_library().is_library());
}

#[test]
fn crate_graph_queries() {
    let mut graph = CrateGraph::new();
    let a = graph.add_crate_root(FileId(1), Edition::Edition2018);
    let b = graph.add_crate_root(FileId(2), Edition::Edition2015);
    assert_eq!(a, CrateId(0));
    assert_eq!(b, CrateId(1));
    graph.add_dep(a, "b".to_string(), b);
    assert_eq!(graph.crate_root(b), FileId(2));
    assert_eq!(graph.edition(a), Edition::Edition2018);
    assert_eq!(graph.edition(b), Edition::Edition2015);
    let deps = graph.dependencies(a);
    assert_eq!(deps.len(), 1);
    assert_eq!(deps[0].crate_id(), b);
    assert_eq!(deps[0].name, "b");
    assert!(graph.dependencies(b).is_empty());
    assert_eq!(graph.crate_id_for_crate_root(FileId(2)), Some(b));
    assert_eq!(graph.crate_id_for_crate_root(FileId(9)), None);
}

#[test]
fn shared_root_file_gives_first_crate() {
    let mut graph = CrateGraph::new();
    let a = graph.add_crate_root(FileId(1), Edition::Edition2018);
    graph.add_crate_root(FileId(1), Edition::Edition2015);
    assert_eq!(graph.crate_id_for_crate_root(FileId(1)), Some(a));
    assert_eq!(graph.len(), 2);
}

#[test]
fn text_range_length() {
    let r = TextRange::new(3, 10);
    assert_eq!(r.start(), 3);
    assert_eq!(r.end(), 10);
    assert_eq!(r.len(), 7);
    assert_eq!(TextRange::new(4, 4).len(), 0);
}
