//! The concrete store of input facts, with a revision counter that every
//! change advances and a flag through which a pending change cancels the
//! queries in flight.
use std::collections::HashMap;
use std::sync::Arc;
use vstd::prelude::*;

use crate::cancellation::CheckCanceled;
use crate::database::{crates_rooted_in, lemma_crates_rooted_in, SourceDatabase};
use crate::paths::{normalized, pushed, resolved_path};
use crate::input::{CrateId, has_path, lemma_file_at_entry, paths_distinct, CrateGraph, FileId, SourceRoot, SourceRootId};

verus! {

broadcast use vstd::std_specs::hash::group_hash_axioms;

/// The input facts, keyed by the numbers inside the identifiers.
#[derive(Debug)]
pub struct Database {
    revision: u64,
    cancel_pending: bool,
    texts: HashMap<u32, Arc<String>>,
    paths: HashMap<u32, String>,
    file_roots: HashMap<u32, SourceRootId>,
    roots: HashMap<u32, Arc<SourceRoot>>,
    graph: Arc<CrateGraph>,
}

impl Database {
    /// The revision of the input facts; every change advances it by one.
    pub closed spec fn revision_spec(&self) -> u64 {
        self.revision
    }

    /// The facts agree with each other: each file is named by its path in
    /// its own source root, and each file that a source root names is one of
    /// the files, in that root, at that path.
    pub open spec fn wf(&self) -> bool {
        &&& forall|f: FileId| #[trigger]
            self.has_file(f) ==> {
                &&& self.has_source_root(self.root_of(f))
                &&& self.source_root_spec(self.root_of(f)).file_for_path(self.path_of(f)) == Some(f)
            }
        &&& forall|r: SourceRootId, p: Seq<char>|
            self.has_source_root(r) && (#[trigger] self.source_root_spec(r).file_for_path(p)) is Some
                ==> {
                let f = self.source_root_spec(r).file_for_path(p)->Some_0;
                &&& self.has_file(f)
                &&& self.root_of(f) == r
                &&& self.path_of(f) == p
            }
        &&& forall|r: SourceRootId|
            #[trigger] self.has_source_root(r) ==> paths_distinct(self.source_root_spec(r).entries())
        &&& self.crate_graph_spec().roots().len() <= u32::MAX
    }

    /// In a database whose facts agree, no file is listed twice by a
    /// source root.
    pub proof fn lemma_root_files_distinct(&self, r: SourceRootId)
        requires
            self.wf(),
            self.has_source_root(r),
        ensures
            self.source_root_spec(r).files_spec().no_duplicates(),
    {
        let root = self.source_root_spec(r);
        let entries = root.entries();
        let files = root.files_spec();
        assert forall|i: int, j: int| 0 <= i < files.len() && 0 <= j < files.len() && i != j
            implies files[i] != files[j] by {
            lemma_file_at_entry(entries, i);
            lemma_file_at_entry(entries, j);
            assert(root.file_for_path(entries[i].0) is Some);
            assert(root.file_for_path(entries[j].0) is Some);
        }
    }

    /// `new` holds the same input facts as `old`.
    pub open spec fn same_inputs(old: Database, new: Database) -> bool {
        &&& Database::files_kept(old, new)
        &&& forall|r: SourceRootId| #[trigger] new.has_source_root(r) == old.has_source_root(r)
        &&& forall|r: SourceRootId|
            old.has_source_root(r) ==> #[trigger] new.source_root_spec(r) == old.source_root_spec(r)
        &&& new.crate_graph_spec() == old.crate_graph_spec()
    }

    /// `new` is `old` after a change was announced and before it was
    /// applied.
    pub open spec fn cancellation_requested(old: Database, new: Database) -> bool {
        &&& new.cancel_pending()
        &&& new.revision_spec() == old.revision_spec()
        &&& Database::same_inputs(old, new)
    }

    /// `new` is `old` after one change: the revision advanced and nothing is
    /// pending any more.
    pub open spec fn next_revision(old: Database, new: Database) -> bool {
        &&& new.revision_spec() == old.revision_spec() + 1
        &&& !new.cancel_pending()
        &&& new.wf()
    }

    /// Every file keeps its facts.
    pub open spec fn files_kept(old: Database, new: Database) -> bool {
        &&& forall|f: FileId| #[trigger] new.has_file(f) == old.has_file(f)
        &&& forall|f: FileId|
            old.has_file(f) ==> {
                &&& #[trigger] new.text_of(f) == old.text_of(f)
                &&& new.path_of(f) == old.path_of(f)
                &&& new.root_of(f) == old.root_of(f)
            }
    }

    /// The files other than `file_id` keep their facts.
    pub open spec fn other_files_kept(old: Database, new: Database, file_id: FileId) -> bool {
        &&& forall|f: FileId| f != file_id ==> #[trigger] new.has_file(f) == old.has_file(f)
        &&& forall|f: FileId|
            f != file_id && old.has_file(f) ==> {
                &&& #[trigger] new.text_of(f) == old.text_of(f)
                &&& new.path_of(f) == old.path_of(f)
                &&& new.root_of(f) == old.root_of(f)
            }
    }

    /// The source roots other than `id` keep their contents, and `id` its
    /// kind.
    pub open spec fn other_roots_kept(old: Database, new: Database, id: SourceRootId) -> bool {
        &&& forall|r: SourceRootId| #[trigger] new.has_source_root(r) == old.has_source_root(r)
        &&& forall|r: SourceRootId|
            r != id && old.has_source_root(r) ==> #[trigger] new.source_root_spec(r)
                == old.source_root_spec(r)
        &&& new.source_root_spec(id).library() == old.source_root_spec(id).library()
    }

    /// An empty database at revision zero.
    pub fn new() -> (r: Database)
        ensures
            r.wf(),
            r.revision_spec() == 0,
            !r.cancel_pending(),
            forall|f: FileId| !#[trigger] r.has_file(f),
            forall|id: SourceRootId| !#[trigger] r.has_source_root(id),
            r.crate_graph_spec().roots() == Seq::<FileId>::empty(),
    {
        Database {
            revision: 0,
            cancel_pending: false,
            texts: HashMap::new(),
            paths: HashMap::new(),
            file_roots: HashMap::new(),
            roots: HashMap::new(),
            graph: Arc::new(CrateGraph::new()),
        }
    }

    pub fn revision(&self) -> (r: u64)
        ensures
            r == self.revision_spec(),
    {
        self.revision
    }

    /// Announces a change: every query in flight is canceled from here on,
    /// while the input facts stay as they are until the change is applied.
    pub fn request_cancellation(&mut self)
        ensures
            Database::cancellation_requested(*old(self), *final(self)),
            old(self).wf() ==> final(self).wf(),
    {
        let ghost before = *self;
        self.cancel_pending = true;
        proof {
            if before.wf() {
                Database::lemma_wf_kept(before, *self);
            }
        }
    }

    /// A change that keeps every file and source root, and adds only empty
    /// source roots, keeps the facts in agreement.
    proof fn lemma_wf_kept(old: Database, new: Database)
        requires
            old.wf(),
            Database::files_kept(old, new),
            forall|r: SourceRootId|
                old.has_source_root(r) ==> #[trigger] new.has_source_root(r)
                    && new.source_root_spec(r) == old.source_root_spec(r),
            forall|r: SourceRootId, p: Seq<char>|
                new.has_source_root(r) && !old.has_source_root(r) ==> #[trigger] new.source_root_spec(
                    r,
                ).file_for_path(p) is None,
            forall|r: SourceRootId|
                #[trigger] new.has_source_root(r) && !old.has_source_root(r) ==> paths_distinct(
                    new.source_root_spec(r).entries(),
                ),
            new.crate_graph_spec().roots().len() <= u32::MAX,
        ensures
            new.wf(),
    {
        assert forall|r: SourceRootId| #[trigger] new.has_source_root(r) implies paths_distinct(
            new.source_root_spec(r).entries(),
        ) by {
            if old.has_source_root(r) {
                assert(new.source_root_spec(r) == old.source_root_spec(r));
            }
        }
        assert forall|f: FileId| #[trigger] new.has_file(f) implies {
            &&& new.has_source_root(new.root_of(f))
            &&& new.source_root_spec(new.root_of(f)).file_for_path(new.path_of(f)) == Some(f)
        } by {
            assert(old.has_file(f));
            assert(new.text_of(f) == old.text_of(f));
            assert(old.has_source_root(old.root_of(f)));
            assert(new.has_source_root(old.root_of(f)));
            assert(new.source_root_spec(old.root_of(f)) == old.source_root_spec(old.root_of(f)));
        }
        assert forall|r: SourceRootId, p: Seq<char>|
            new.has_source_root(r) && (#[trigger] new.source_root_spec(r).file_for_path(p)) is Some implies {
            let f = new.source_root_spec(r).file_for_path(p)->Some_0;
            &&& new.has_file(f)
            &&& new.root_of(f) == r
            &&& new.path_of(f) == p
        } by {
            assert(old.has_source_root(r));
            assert(new.source_root_spec(r) == old.source_root_spec(r));
            assert(old.source_root_spec(r).file_for_path(p) is Some);
            let f = old.source_root_spec(r).file_for_path(p)->Some_0;
            assert(old.has_file(f));
            assert(new.text_of(f) == old.text_of(f));
        }
    }

    /// What the source root `r` names at `p` after a change of the file
    /// `file_id` alone: that file at its new place, nothing at its old one,
    /// and elsewhere what was there before.
    pub open spec fn entry_after_change(
        old: Database,
        new: Database,
        file_id: FileId,
        r: SourceRootId,
        p: Seq<char>,
    ) -> Option<FileId> {
        if new.has_file(file_id) && r == new.root_of(file_id) && p == new.path_of(file_id) {
            Some(file_id)
        } else if old.has_file(file_id) && r == old.root_of(file_id) && p == old.path_of(file_id) {
            None
        } else if old.has_source_root(r) {
            old.source_root_spec(r).file_for_path(p)
        } else {
            None
        }
    }

    /// A change of the file `file_id` alone, to a place that no other file
    /// holds, keeps the facts in agreement.
    proof fn lemma_wf_after_change(old: Database, new: Database, file_id: FileId)
        requires
            old.wf(),
            Database::other_files_kept(old, new, file_id),
            forall|r: SourceRootId| old.has_source_root(r) ==> #[trigger] new.has_source_root(r),
            new.has_file(file_id) ==> new.has_source_root(new.root_of(file_id)),
            new.has_file(file_id) && old.has_source_root(new.root_of(file_id)) ==> {
                let there = old.source_root_spec(new.root_of(file_id)).file_for_path(
                    new.path_of(file_id),
                );
                there is None || there == Some(file_id)
            },
            forall|r: SourceRootId, p: Seq<char>|
                new.has_source_root(r) ==> #[trigger] new.source_root_spec(r).file_for_path(p)
                    == Database::entry_after_change(old, new, file_id, r, p),
            forall|r: SourceRootId|
                #[trigger] new.has_source_root(r) ==> paths_distinct(new.source_root_spec(r).entries())
                    || (old.has_source_root(r) && new.source_root_spec(r) == old.source_root_spec(r)),
            new.crate_graph_spec() == old.crate_graph_spec(),
        ensures
            new.wf(),
    {
        assert forall|r: SourceRootId| #[trigger] new.has_source_root(r) implies paths_distinct(
            new.source_root_spec(r).entries(),
        ) by {
            if !paths_distinct(new.source_root_spec(r).entries()) {
                assert(old.has_source_root(r));
            }
        }
        assert forall|f: FileId| #[trigger] new.has_file(f) implies {
            &&& new.has_source_root(new.root_of(f))
            &&& new.source_root_spec(new.root_of(f)).file_for_path(new.path_of(f)) == Some(f)
        } by {
            if f != file_id {
                assert(old.has_file(f));
                assert(new.text_of(f) == old.text_of(f));
                assert(old.has_source_root(old.root_of(f)));
                assert(new.source_root_spec(new.root_of(f)).file_for_path(new.path_of(f))
                    == Database::entry_after_change(old, new, file_id, new.root_of(f), new.path_of(f)));
                if old.has_file(file_id) {
                    assert(old.has_source_root(old.root_of(file_id)));
                }
            }
        }
        assert forall|r: SourceRootId, p: Seq<char>|
            new.has_source_root(r) && (#[trigger] new.source_root_spec(r).file_for_path(p)) is Some implies {
            let f = new.source_root_spec(r).file_for_path(p)->Some_0;
            &&& new.has_file(f)
            &&& new.root_of(f) == r
            &&& new.path_of(f) == p
        } by {
            if !(new.has_file(file_id) && r == new.root_of(file_id) && p == new.path_of(file_id)) {
                assert(old.has_source_root(r));
                assert(old.source_root_spec(r).file_for_path(p) is Some);
                let g = old.source_root_spec(r).file_for_path(p)->Some_0;
                assert(old.has_file(g));
                if g != file_id {
                    assert(new.text_of(g) == old.text_of(g));
                }
            }
        }
    }

    /// Replaces the crate graph.
    pub fn set_crate_graph(&mut self, graph: CrateGraph)
        requires
            old(self).wf(),
            old(self).revision_spec() < u64::MAX,
        ensures
            Database::next_revision(*old(self), *final(self)),
            final(self).crate_graph_spec() == graph,
            Database::files_kept(*old(self), *final(self)),
            forall|r: SourceRootId| #[trigger] final(self).has_source_root(r) == old(self).has_source_root(r),
            forall|r: SourceRootId|
                old(self).has_source_root(r) ==> #[trigger] final(self).source_root_spec(r)
                    == old(self).source_root_spec(r),
    {
        let ghost before = *self;
        // the size of the graph bounds its crate ids
        let _ = graph.len();
        self.graph = Arc::new(graph);
        self.revision = self.revision + 1;
        self.cancel_pending = false;
        proof {
            Database::lemma_wf_kept(before, *self);
        }
    }

    /// Adds an empty source root.
    pub fn add_source_root(&mut self, id: SourceRootId, is_library: bool)
        requires
            old(self).wf(),
            old(self).revision_spec() < u64::MAX,
            !old(self).has_source_root(id),
        ensures
            Database::next_revision(*old(self), *final(self)),
            final(self).has_source_root(id),
            final(self).source_root_spec(id).library() == is_library,
            final(self).source_root_spec(id).entries() == Seq::<(Seq<char>, FileId)>::empty(),
            forall|r: SourceRootId|
                r != id ==> #[trigger] final(self).has_source_root(r) == old(self).has_source_root(r),
            forall|r: SourceRootId|
                r != id && old(self).has_source_root(r) ==> #[trigger] final(self).source_root_spec(r)
                    == old(self).source_root_spec(r),
            Database::files_kept(*old(self), *final(self)),
            final(self).crate_graph_spec() == old(self).crate_graph_spec(),
    {
        let root = if is_library {
            SourceRoot::new_library()
        } else {
            SourceRoot::new()
        };
        let ghost before = *self;
        self.roots.insert(id.0, Arc::new(root));
        self.revision = self.revision + 1;
        self.cancel_pending = false;
        proof {
            assert forall|r: SourceRootId, p: Seq<char>|
                self.has_source_root(r) && !before.has_source_root(r) implies #[trigger] self.source_root_spec(
                    r,
                ).file_for_path(p) is None by {
                assert(!has_path(self.source_root_spec(r).entries(), p));
            }
            Database::lemma_wf_kept(before, *self);
        }
    }

    /// Adds the file `file_id` with its text at `path` in the source root
    /// `root`.
    pub fn add_file(&mut self, file_id: FileId, root: SourceRootId, path: String, text: Arc<String>)
        requires
            old(self).wf(),
            old(self).revision_spec() < u64::MAX,
            !old(self).has_file(file_id),
            old(self).has_source_root(root),
            old(self).source_root_spec(root).file_for_path(path@) is None,
        ensures
            Database::next_revision(*old(self), *final(self)),
            final(self).has_file(file_id),
            final(self).text_of(file_id) == text@,
            final(self).path_of(file_id) == path@,
            final(self).root_of(file_id) == root,
            Database::other_files_kept(*old(self), *final(self), file_id),
            Database::other_roots_kept(*old(self), *final(self), root),
            forall|p: Seq<char>|
                #[trigger] final(self).source_root_spec(root).file_for_path(p) == if p == path@ {
                    Some(file_id)
                } else {
                    old(self).source_root_spec(root).file_for_path(p)
                },
            final(self).source_root_spec(root).entries() == old(self).source_root_spec(
                root,
            ).entries().push((path@, file_id)),
            final(self).crate_graph_spec() == old(self).crate_graph_spec(),
    {
        let mut new_root = self.roots.get(&root.0).unwrap().duplicate();
        new_root.insert_file(path.clone(), file_id);
        let ghost before = *self;
        self.roots.insert(root.0, Arc::new(new_root));
        self.texts.insert(file_id.0, text);
        self.paths.insert(file_id.0, path);
        self.file_roots.insert(file_id.0, root);
        self.revision = self.revision + 1;
        self.cancel_pending = false;
        proof {
            assert(!has_path(before.source_root_spec(root).entries(), path@));
            Database::lemma_wf_after_change(before, *self, file_id);
        }
    }

    /// Replaces the text of the file `file_id`.
    pub fn set_file_text(&mut self, file_id: FileId, text: Arc<String>)
        requires
            old(self).wf(),
            old(self).revision_spec() < u64::MAX,
            old(self).has_file(file_id),
        ensures
            Database::next_revision(*old(self), *final(self)),
            final(self).has_file(file_id),
            final(self).text_of(file_id) == text@,
            final(self).path_of(file_id) == old(self).path_of(file_id),
            final(self).root_of(file_id) == old(self).root_of(file_id),
            Database::other_files_kept(*old(self), *final(self), file_id),
            forall|r: SourceRootId| #[trigger] final(self).has_source_root(r) == old(self).has_source_root(r),
            forall|r: SourceRootId|
                old(self).has_source_root(r) ==> #[trigger] final(self).source_root_spec(r)
                    == old(self).source_root_spec(r),
            final(self).crate_graph_spec() == old(self).crate_graph_spec(),
    {
        let ghost before = *self;
        self.texts.insert(file_id.0, text);
        self.revision = self.revision + 1;
        self.cancel_pending = false;
        proof {
            assert(before.has_source_root(before.root_of(file_id)));
            Database::lemma_wf_after_change(before, *self, file_id);
        }
    }

    /// Moves the file `file_id` to `path` in the source root `root`, which
    /// may be its own, and gives it a new text, all in one change.
    pub fn move_file(&mut self, file_id: FileId, root: SourceRootId, path: String, text: Arc<String>)
        requires
            old(self).wf(),
            old(self).revision_spec() < u64::MAX,
            old(self).has_file(file_id),
            old(self).has_source_root(root),
            old(self).source_root_spec(root).file_for_path(path@) is None
                || old(self).source_root_spec(root).file_for_path(path@) == Some(file_id),
        ensures
            Database::next_revision(*old(self), *final(self)),
            Database::moved(*old(self), *final(self), file_id, root, path@, text@),
    {
        let ghost before = *self;
        let from = *self.file_roots.get(&file_id.0).unwrap();
        let old_path = self.paths.get(&file_id.0).unwrap().clone();
        if from == root {
            let mut new_root = self.roots.get(&root.0).unwrap().duplicate();
            new_root.remove_file(&old_path);
            new_root.insert_file(path.clone(), file_id);
            self.roots.insert(root.0, Arc::new(new_root));
        } else {
            let mut left = self.roots.get(&from.0).unwrap().duplicate();
            left.remove_file(&old_path);
            let mut entered = self.roots.get(&root.0).unwrap().duplicate();
            entered.insert_file(path.clone(), file_id);
            self.roots.insert(from.0, Arc::new(left));
            self.roots.insert(root.0, Arc::new(entered));
        }
        self.texts.insert(file_id.0, text);
        self.paths.insert(file_id.0, path);
        self.file_roots.insert(file_id.0, root);
        self.revision = self.revision + 1;
        self.cancel_pending = false;
        proof {
            assert(before.has_source_root(from));
            Database::lemma_wf_after_change(before, *self, file_id);
        }
    }

    /// Gives the file `file_id` a new path within its source root and a new
    /// text, both in one change.
    pub fn rename_file(&mut self, file_id: FileId, path: String, text: Arc<String>)
        requires
            old(self).wf(),
            old(self).revision_spec() < u64::MAX,
            old(self).has_file(file_id),
            old(self).source_root_spec(old(self).root_of(file_id)).file_for_path(path@) is None
                || old(self).source_root_spec(old(self).root_of(file_id)).file_for_path(path@)
                == Some(file_id),
        ensures
            Database::next_revision(*old(self), *final(self)),
            Database::renamed(*old(self), *final(self), file_id, path@, text@),
    {
        let root = self.file_source_root(file_id);
        self.move_file(file_id, root, path, text);
    }

    /// `new` is `old` after the file `file_id` was moved to `path` in the
    /// source root `root` and given the text `text`.
    pub open spec fn moved(
        old: Database,
        new: Database,
        file_id: FileId,
        root: SourceRootId,
        path: Seq<char>,
        text: Seq<char>,
    ) -> bool {
        let from = old.root_of(file_id);
        &&& new.has_file(file_id)
        &&& new.text_of(file_id) == text
        &&& new.path_of(file_id) == path
        &&& new.root_of(file_id) == root
        &&& Database::other_files_kept(old, new, file_id)
        &&& forall|r: SourceRootId| #[trigger] new.has_source_root(r) == old.has_source_root(r)
        &&& forall|r: SourceRootId|
            r != root && r != from && old.has_source_root(r) ==> #[trigger] new.source_root_spec(r)
                == old.source_root_spec(r)
        &&& new.source_root_spec(root).library() == old.source_root_spec(root).library()
        &&& new.source_root_spec(from).library() == old.source_root_spec(from).library()
        &&& forall|r: SourceRootId, p: Seq<char>|
            new.has_source_root(r) ==> #[trigger] new.source_root_spec(r).file_for_path(p)
                == Database::entry_after_change(old, new, file_id, r, p)
        &&& new.crate_graph_spec() == old.crate_graph_spec()
    }

    /// `new` is `old` after the file `file_id` was given the path `path` in
    /// its source root and the text `text`.
    pub open spec fn renamed(
        old: Database,
        new: Database,
        file_id: FileId,
        path: Seq<char>,
        text: Seq<char>,
    ) -> bool {
        Database::moved(old, new, file_id, old.root_of(file_id), path, text)
    }

    /// Removes the file `file_id` from the database and from its source root.
    pub fn remove_file(&mut self, file_id: FileId)
        requires
            old(self).wf(),
            old(self).revision_spec() < u64::MAX,
            old(self).has_file(file_id),
        ensures
            Database::next_revision(*old(self), *final(self)),
            !final(self).has_file(file_id),
            Database::other_files_kept(*old(self), *final(self), file_id),
            Database::other_roots_kept(*old(self), *final(self), old(self).root_of(file_id)),
            forall|p: Seq<char>|
                #[trigger] final(self).source_root_spec(old(self).root_of(file_id)).file_for_path(p)
                    == if p == old(self).path_of(file_id) {
                    None
                } else {
                    old(self).source_root_spec(old(self).root_of(file_id)).file_for_path(p)
                },
            final(self).crate_graph_spec() == old(self).crate_graph_spec(),
    {
        let ghost before = *self;
        let id = *self.file_roots.get(&file_id.0).unwrap();
        let old_path = self.paths.get(&file_id.0).unwrap().clone();
        let mut new_root = self.roots.get(&id.0).unwrap().duplicate();
        new_root.remove_file(&old_path);
        self.roots.insert(id.0, Arc::new(new_root));
        self.texts.remove(&file_id.0);
        self.paths.remove(&file_id.0);
        self.file_roots.remove(&file_id.0);
        self.revision = self.revision + 1;
        self.cancel_pending = false;
        proof {
            assert(before.has_source_root(id));
            Database::lemma_wf_after_change(before, *self, file_id);
        }
    }
}

/// In a database whose facts agree, the crates of a source root are listed
/// each once: exactly those whose root file lies in that root.
pub proof fn lemma_source_root_crates_distinct(db: &Database, r: SourceRootId)
    requires
        db.wf(),
        db.has_source_root(r),
    ensures
        crates_rooted_in(
            db.source_root_spec(r).files_spec(),
            db.crate_graph_spec().roots(),
        ).no_duplicates(),
        forall|c: CrateId|
            #[trigger] crates_rooted_in(
                db.source_root_spec(r).files_spec(),
                db.crate_graph_spec().roots(),
            ).contains(c) <==> db.crate_graph_spec().contains(c) && db.source_root_spec(
                r,
            ).files_spec().contains(db.crate_graph_spec().roots()[c.0 as int]),
{
    db.lemma_root_files_distinct(r);
    lemma_crates_rooted_in(db.source_root_spec(r).files_spec(), db.crate_graph_spec().roots());
}

/// Once a change is announced, every check that a query in flight makes
/// reports the cancellation, while the facts that the query reads stay those
/// of its revision: nothing of the change is seen before it is applied.
pub proof fn lemma_announced_change_cancels(old: Database, new: Database, f: FileId)
    requires
        Database::cancellation_requested(old, new),
    ensures
        new.cancel_pending(),
        new.revision_spec() == old.revision_spec(),
        new.has_file(f) == old.has_file(f),
        old.has_file(f) ==> new.text_of(f) == old.text_of(f) && new.path_of(f) == old.path_of(f)
            && new.root_of(f) == old.root_of(f),
        new.crate_graph_spec() == old.crate_graph_spec(),
{
}

/// After a file is moved (or renamed) to `path` in the source root `root`
/// with the text `text`, it reads back that text, and every relative path
/// that resolves to `path` from a file of that root names it.
pub proof fn lemma_move_then_resolve(
    old: Database,
    new: Database,
    file_id: FileId,
    root: SourceRootId,
    path: Seq<char>,
    text: Seq<char>,
    anchor: FileId,
    relative: Seq<char>,
)
    requires
        Database::moved(old, new, file_id, root, path, text),
        new.wf(),
        new.has_file(anchor),
        new.root_of(anchor) == root,
        resolved_path(new.path_of(anchor), relative) == path,
    ensures
        new.text_of(file_id) == text,
        new.source_root_spec(root).file_for_path(resolved_path(new.path_of(anchor), relative))
            == Some(file_id),
{
    assert(new.has_source_root(root));
    assert(new.source_root_spec(root).file_for_path(path) == Database::entry_after_change(
        old,
        new,
        file_id,
        root,
        path,
    ));
}

/// After a file is renamed to `path` with the text `text`, it reads back
/// that text, and `path` itself resolves to it from every file at the top
/// of the same source root, where `path` is in normal form.
pub proof fn lemma_rename_then_resolve(
    old: Database,
    new: Database,
    file_id: FileId,
    path: Seq<char>,
    text: Seq<char>,
    anchor: FileId,
)
    requires
        Database::renamed(old, new, file_id, path, text),
        new.wf(),
        new.has_file(anchor),
        new.root_of(anchor) == new.root_of(file_id),
        !(path.len() > 0 && path[0] == '/'),
        normalized(path) == path,
    ensures
        new.text_of(file_id) == text,
        new.source_root_spec(new.root_of(anchor)).file_for_path(
            normalized(pushed(Seq::empty(), path)),
        ) == Some(file_id),
{
    let root = new.root_of(file_id);
    assert(pushed(Seq::empty(), path) =~= path);
    assert(new.has_source_root(root));
    assert(new.source_root_spec(root).file_for_path(path) == Database::entry_after_change(
        old,
        new,
        file_id,
        root,
        path,
    ));
}

impl CheckCanceled for Database {
    closed spec fn cancel_pending(&self) -> bool {
        self.cancel_pending
    }

    fn is_current_revision_canceled(&self) -> (r: bool) {
        self.cancel_pending
    }
}

impl SourceDatabase for Database {
    closed spec fn has_file(&self, file_id: FileId) -> bool {
        &&& self.texts@.contains_key(file_id.0)
        &&& self.paths@.contains_key(file_id.0)
        &&& self.file_roots@.contains_key(file_id.0)
    }

    closed spec fn text_of(&self, file_id: FileId) -> Seq<char> {
        self.texts@[file_id.0]@
    }

    closed spec fn path_of(&self, file_id: FileId) -> Seq<char> {
        self.paths@[file_id.0]@
    }

    closed spec fn root_of(&self, file_id: FileId) -> SourceRootId {
        self.file_roots@[file_id.0]
    }

    closed spec fn has_source_root(&self, id: SourceRootId) -> bool {
        self.roots@.contains_key(id.0)
    }

    closed spec fn source_root_spec(&self, id: SourceRootId) -> SourceRoot {
        *self.roots@[id.0]
    }

    closed spec fn crate_graph_spec(&self) -> CrateGraph {
        *self.graph
    }

    fn file_text(&self, file_id: FileId) -> (r: Arc<String>) {
        self.texts.get(&file_id.0).unwrap().clone()
    }

    fn file_relative_path(&self, file_id: FileId) -> (r: String) {
        self.paths.get(&file_id.0).unwrap().clone()
    }

    fn file_source_root(&self, file_id: FileId) -> (r: SourceRootId) {
        *self.file_roots.get(&file_id.0).unwrap()
    }

    fn source_root(&self, id: SourceRootId) -> (r: Arc<SourceRoot>) {
        self.roots.get(&id.0).unwrap().clone()
    }

    fn crate_graph(&self) -> (r: Arc<CrateGraph>) {
        self.graph.clone()
    }
}

} // verus!
