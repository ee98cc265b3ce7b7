//! The database of input facts, and the queries derived from them.
use std::sync::Arc;
use vstd::prelude::*;

use crate::cancellation::CheckCanceled;
use crate::input::{crates_with_root, lemma_crates_with_root, CrateGraph, CrateId, FileId, SourceRoot, SourceRootId};
use crate::paths::{normalized, pushed, resolve_path, resolved_path};

verus! {

/// Every crate whose root file is among `files`: for each file in turn, the
/// crates rooted there by increasing id.
pub open spec fn crates_rooted_in(files: Seq<FileId>, roots: Seq<FileId>) -> Seq<CrateId>
    decreases files.len(),
{
    if files.len() == 0 {
        Seq::empty()
    } else {
        crates_rooted_in(files.drop_last(), roots) + crates_with_root(roots, files.last())
    }
}

/// A crate is listed by `crates_rooted_in` exactly when its root file is
/// among `files`; where no file repeats, no crate does.
pub proof fn lemma_crates_rooted_in(files: Seq<FileId>, roots: Seq<FileId>)
    requires
        roots.len() <= u32::MAX,
    ensures
        forall|c: CrateId|
            #[trigger] crates_rooted_in(files, roots).contains(c) <==> c.0 < roots.len()
                && files.contains(roots[c.0 as int]),
        files.no_duplicates() ==> crates_rooted_in(files, roots).no_duplicates(),
    decreases files.len(),
{
    if files.len() > 0 {
        let init = files.drop_last();
        let last = files.last();
        lemma_crates_rooted_in(init, roots);
        lemma_crates_with_root(roots, last);
        let a = crates_rooted_in(init, roots);
        let b = crates_with_root(roots, last);
        let r = a + b;
        assert forall|c: CrateId| #[trigger] r.contains(c) <==> c.0 < roots.len()
            && files.contains(roots[c.0 as int]) by {
            if r.contains(c) {
                let k = choose|k: int| 0 <= k < r.len() && r[k] == c;
                if k < a.len() {
                    assert(a[k] == c);
                    assert(a.contains(c));
                    let j = choose|j: int| 0 <= j < init.len() && init[j] == roots[c.0 as int];
                    assert(files[j] == init[j]);
                } else {
                    assert(b[k - a.len()] == c);
                    assert(b.contains(c));
                    assert(files[files.len() - 1] == last);
                }
            }
            if c.0 < roots.len() && files.contains(roots[c.0 as int]) {
                let j = choose|j: int| 0 <= j < files.len() && files[j] == roots[c.0 as int];
                if j < files.len() - 1 {
                    assert(init[j] == files[j]);
                    assert(a.contains(c));
                    let k = choose|k: int| 0 <= k < a.len() && a[k] == c;
                    assert(r[k] == c);
                } else {
                    assert(b.contains(c));
                    let k = choose|k: int| 0 <= k < b.len() && b[k] == c;
                    assert(r[a.len() + k] == c);
                }
            }
        }
        if files.no_duplicates() {
            assert(init.no_duplicates()) by {
                assert forall|i: int, j: int| 0 <= i < init.len() && 0 <= j < init.len() && i != j
                    implies init[i] != init[j] by {
                    assert(files[i] == init[i] && files[j] == init[j]);
                }
            }
            assert forall|i: int, j: int| 0 <= i < r.len() && 0 <= j < r.len() && i != j
                implies r[i] != r[j] by {
                if i < a.len() && j >= a.len() {
                    assert(a.contains(r[i]));
                    assert(b.contains(r[j]));
                    let c = r[i];
                    let m = choose|m: int| 0 <= m < init.len() && init[m] == roots[c.0 as int];
                    assert(files[m] == init[m]);
                    assert(files[files.len() - 1] == last);
                } else if j < a.len() && i >= a.len() {
                    assert(a.contains(r[j]));
                    assert(b.contains(r[i]));
                    let c = r[j];
                    let m = choose|m: int| 0 <= m < init.len() && init[m] == roots[c.0 as int];
                    assert(files[m] == init[m]);
                    assert(files[files.len() - 1] == last);
                } else if i < a.len() {
                    assert(a[i] == r[i] && a[j] == r[j]);
                } else {
                    assert(b[i - a.len()] == r[i] && b[j - a.len()] == r[j]);
                }
            }
        }
    }
}

/// The file of `root` that `relative_path` names, seen from the file at
/// `anchor_path` in that root.
pub fn resolve_in_source_root(root: &SourceRoot, anchor_path: &str, relative_path: &str) -> (r:
    Option<FileId>)
    ensures
        r == root.file_for_path(resolved_path(anchor_path@, relative_path@)),
        !anchor_path@.contains('/') ==> r == root.file_for_path(
            normalized(pushed(Seq::empty(), relative_path@)),
        ),
{
    let path = resolve_path(anchor_path, relative_path);
    root.file_by_relative_path(&path)
}

/// The crates of `graph` whose root file lies in `root`, in the order in
/// which the root walks its files.
pub fn crates_in_source_root(root: &SourceRoot, graph: &CrateGraph) -> (r: Vec<CrateId>)
    ensures
        r@ == crates_rooted_in(root.files_spec(), graph.roots()),
        forall|c: CrateId|
            #[trigger] r@.contains(c) <==> graph.contains(c) && root.files_spec().contains(
                graph.roots()[c.0 as int],
            ),
        root.files_spec().no_duplicates() ==> r@.no_duplicates(),
{
    let files = root.walk();
    let mut res: Vec<CrateId> = Vec::new();
    let mut i: usize = 0;
    while i < files.len()
        invariant
            i <= files.len(),
            res@ == crates_rooted_in(files@.take(i as int), graph.roots()),
        decreases files.len() - i,
    {
        let mut found = graph.crates_for_crate_root(files[i]);
        assert(files@.take(i as int + 1).drop_last() =~= files@.take(i as int));
        res.append(&mut found);
        i = i + 1;
    }
    assert(files@.take(i as int) =~= files@);
    // the size of the graph bounds its crate ids
    let _ = graph.len();
    proof {
        lemma_crates_rooted_in(files@, graph.roots());
    }
    res
}

/// Every input fact of the analysis — source text and project model — and
/// what is derived from them.
pub trait SourceDatabase: CheckCanceled {
    /// Whether the file is one of the inputs.
    spec fn has_file(&self, file_id: FileId) -> bool;

    /// The current text of the file.
    spec fn text_of(&self, file_id: FileId) -> Seq<char>;

    /// The path of the file within its source root.
    spec fn path_of(&self, file_id: FileId) -> Seq<char>;

    /// The source root that the file belongs to.
    spec fn root_of(&self, file_id: FileId) -> SourceRootId;

    /// Whether the source root is one of the inputs.
    spec fn has_source_root(&self, id: SourceRootId) -> bool;

    /// The contents of the source root.
    spec fn source_root_spec(&self, id: SourceRootId) -> SourceRoot;

    /// The crate graph.
    spec fn crate_graph_spec(&self) -> CrateGraph;

    /// Text of the file.
    fn file_text(&self, file_id: FileId) -> (r: Arc<String>)
        requires
            self.has_file(file_id),
        ensures
            r@ == self.text_of(file_id),
    ;

    /// Path to a file, relative to the root of its source root.
    fn file_relative_path(&self, file_id: FileId) -> (r: String)
        requires
            self.has_file(file_id),
        ensures
            r@ == self.path_of(file_id),
    ;

    /// Source root of the file.
    fn file_source_root(&self, file_id: FileId) -> (r: SourceRootId)
        requires
            self.has_file(file_id),
        ensures
            r == self.root_of(file_id),
    ;

    /// Contents of the source root.
    fn source_root(&self, id: SourceRootId) -> (r: Arc<SourceRoot>)
        requires
            self.has_source_root(id),
        ensures
            *r == self.source_root_spec(id),
    ;

    /// The crate graph.
    fn crate_graph(&self) -> (r: Arc<CrateGraph>)
        ensures
            *r == self.crate_graph_spec(),
    ;

    /// The file that `relative_path` names, seen from the file `anchor`: the
    /// path is appended to the directory of the anchor, normalized, and
    /// looked up in the anchor's source root, and in no other.
    fn resolve_relative_path(&self, anchor: FileId, relative_path: &str) -> (r: Option<FileId>)
        requires
            self.has_file(anchor),
            self.has_source_root(self.root_of(anchor)),
        ensures
            r == self.source_root_spec(self.root_of(anchor)).file_for_path(
                resolved_path(self.path_of(anchor), relative_path@),
            ),
            // an anchor of one segment is resolved against the empty directory
            !self.path_of(anchor).contains('/') ==> r == self.source_root_spec(
                self.root_of(anchor),
            ).file_for_path(normalized(pushed(Seq::empty(), relative_path@))),
    {
        let anchor_path = self.file_relative_path(anchor);
        let id = self.file_source_root(anchor);
        let source_root = self.source_root(id);
        resolve_in_source_root(&source_root, anchor_path.as_str(), relative_path)
    }

    /// The crates whose root file lies in the source root `id`, in the order
    /// in which the root walks its files.
    fn source_root_crates(&self, id: SourceRootId) -> (r: Arc<Vec<CrateId>>)
        requires
            self.has_source_root(id),
        ensures
            r@ == crates_rooted_in(
                self.source_root_spec(id).files_spec(),
                self.crate_graph_spec().roots(),
            ),
            forall|c: CrateId|
                #[trigger] r@.contains(c) <==> self.crate_graph_spec().contains(c)
                    && self.source_root_spec(id).files_spec().contains(
                    self.crate_graph_spec().roots()[c.0 as int],
                ),
            self.source_root_spec(id).files_spec().no_duplicates() ==> r@.no_duplicates(),
    {
        let root = self.source_root(id);
        let graph = self.crate_graph();
        Arc::new(crates_in_source_root(&root, &graph))
    }

    /// Parses the file: hands its current text to `parser` and returns what
    /// the parser makes of it.
    fn parse<T, P>(&self, file_id: FileId, parser: P) -> (r: T) where
        Self: Sized,
        P: Fn(&str) -> T,

        requires
            self.has_file(file_id),
            forall|text: &str| #[trigger] parser.requires((text,)),
        ensures
            exists|text: &str| text@ == self.text_of(file_id) && #[trigger] parser.ensures((text,), r),
    {
        let text = self.file_text(file_id);
        let r = parser(text.as_str());
        r
    }
}

/// Parsing a file twice with no change in between gives equal trees, for a
/// parser whose result depends on the text alone.
pub proof fn lemma_parse_idempotent<D: SourceDatabase, T, P: Fn(&str) -> T>(
    db: &D,
    file_id: FileId,
    parser: P,
    first: T,
    second: T,
)
    requires
        forall|a: &str, b: &str, x: T, y: T|
            a@ == b@ && #[trigger] parser.ensures((a,), x) && #[trigger] parser.ensures((b,), y)
                ==> x == y,
        exists|text: &str| text@ == db.text_of(file_id) && #[trigger] parser.ensures((text,), first),
        exists|text: &str| text@ == db.text_of(file_id) && #[trigger] parser.ensures((text,), second),
    ensures
        first == second,
{
    let a = choose|text: &str| text@ == db.text_of(file_id) && #[trigger] parser.ensures((text,), first);
    let b = choose|text: &str| text@ == db.text_of(file_id) && #[trigger] parser.ensures((text,), second);
    assert(parser.ensures((a,), first) && parser.ensures((b,), second));
}

} // verus!
