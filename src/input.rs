//! The identifiers and the project model that the input facts are made of:
//! files, source roots and the crate graph.
use vstd::prelude::*;

verus! {

/// Identity of one source file in the database.
#[derive(Clone, Copy, Debug, PartialEq, Eq, Hash, PartialOrd, Ord, Structural)]
pub struct FileId(pub u32);

/// Identity of one source root.
#[derive(Clone, Copy, Debug, PartialEq, Eq, Hash, PartialOrd, Ord, Structural)]
pub struct SourceRootId(pub u32);

/// Identity of one crate within one crate graph.
#[derive(Clone, Copy, Debug, PartialEq, Eq, Hash, PartialOrd, Ord, Structural)]
pub struct CrateId(pub u32);

/// Language edition of a crate, carried through unchanged.
#[derive(Clone, Copy, Debug, PartialEq, Eq, Hash, Structural)]
pub enum Edition {
    Edition2015,
    Edition2018,
}

/// A set of files under a common namespace of relative paths.
///
/// Each path names at most one file.
#[derive(Debug, PartialEq, Eq)]
pub struct SourceRoot {
    is_library: bool,
    files: Vec<(String, FileId)>,
}

/// Whether `entries` holds an entry for `path`.
pub open spec fn has_path(entries: Seq<(Seq<char>, FileId)>, path: Seq<char>) -> bool {
    exists|i: int| 0 <= i < entries.len() && #[trigger] entries[i].0 == path
}

/// The file that `entries` holds for `path`, if any.
pub open spec fn file_at(entries: Seq<(Seq<char>, FileId)>, path: Seq<char>) -> Option<FileId> {
    if has_path(entries, path) {
        let i = choose|i: int| 0 <= i < entries.len() && #[trigger] entries[i].0 == path;
        Some(entries[i].1)
    } else {
        None
    }
}

/// No two entries share a path.
pub open spec fn paths_distinct(entries: Seq<(Seq<char>, FileId)>) -> bool {
    forall|i: int, j: int|
        0 <= i < entries.len() && 0 <= j < entries.len() && i != j ==> #[trigger] entries[i].0
            != #[trigger] entries[j].0
}

/// With distinct paths, the file for the path of an entry is that entry's.
pub proof fn lemma_file_at_entry(entries: Seq<(Seq<char>, FileId)>, i: int)
    requires
        paths_distinct(entries),
        0 <= i < entries.len(),
    ensures
        file_at(entries, entries[i].0) == Some(entries[i].1),
{
    assert(has_path(entries, entries[i].0));
}

impl SourceRoot {
    /// The entries in walking order, each a path and the file it names.
    pub closed spec fn entries(&self) -> Seq<(Seq<char>, FileId)> {
        self.files@.map_values(|e: (String, FileId)| (e.0@, e.1))
    }

    /// The files in walking order.
    pub open spec fn files_spec(&self) -> Seq<FileId> {
        self.entries().map_values(|e: (Seq<char>, FileId)| e.1)
    }

    /// The file that `path` names in this root, if any.
    pub open spec fn file_for_path(&self, path: Seq<char>) -> Option<FileId> {
        file_at(self.entries(), path)
    }

    /// Whether the files of this root belong to a library rather than to
    /// the workspace being edited.
    pub closed spec fn library(&self) -> bool {
        self.is_library
    }

    pub fn is_library(&self) -> (r: bool)
        ensures
            r == self.library(),
    {
        self.is_library
    }

    #[verifier::type_invariant]
    spec fn inv(&self) -> bool {
        paths_distinct(self.entries())
    }

    pub fn new() -> (r: SourceRoot)
        ensures
            !r.library(),
            r.entries() == Seq::<(Seq<char>, FileId)>::empty(),
            paths_distinct(r.entries()),
    {
        let r = SourceRoot { is_library: false, files: Vec::new() };
        assert(r.entries() =~= Seq::<(Seq<char>, FileId)>::empty());
        r
    }

    pub fn new_library() -> (r: SourceRoot)
        ensures
            r.library(),
            r.entries() == Seq::<(Seq<char>, FileId)>::empty(),
            paths_distinct(r.entries()),
    {
        let r = SourceRoot { is_library: true, files: Vec::new() };
        assert(r.entries() =~= Seq::<(Seq<char>, FileId)>::empty());
        r
    }

    /// A copy of this root, for a change that leaves the original as it is.
    pub fn duplicate(&self) -> (r: SourceRoot)
        ensures
            r.entries() == self.entries(),
            r.library() == self.library(),
            paths_distinct(r.entries()),
    {
        proof {
            use_type_invariant(self);
        }
        let mut files: Vec<(String, FileId)> = Vec::new();
        let mut i: usize = 0;
        while i < self.files.len()
            invariant
                i <= self.files.len(),
                files@ == self.files@.take(i as int),
            decreases self.files.len() - i,
        {
            files.push((self.files[i].0.clone(), self.files[i].1));
            i = i + 1;
            assert(files@ =~= self.files@.take(i as int));
        }
        assert(files@ =~= self.files@);
        assert(files@.map_values(|e: (String, FileId)| (e.0@, e.1)) =~= self.entries());
        let r = SourceRoot { is_library: self.is_library, files };
        assert(r.entries() =~= self.entries());
        r
    }

    /// Index of the entry for `path`.
    fn position(&self, path: &String) -> (r: Option<usize>)
        ensures
            match r {
                Some(i) => i < self.entries().len() && self.entries()[i as int].0 == path@,
                None => !has_path(self.entries(), path@),
            },
    {
        let mut i: usize = 0;
        while i < self.files.len()
            invariant
                i <= self.files.len(),
                forall|j: int| 0 <= j < i ==> #[trigger] self.entries()[j].0 != path@,
            decreases self.files.len() - i,
        {
            if self.files[i].0 == *path {
                return Some(i);
            }
            i = i + 1;
        }
        None
    }

    /// The file that `path` names in this root.
    pub fn file_by_relative_path(&self, path: &String) -> (r: Option<FileId>)
        ensures
            r == self.file_for_path(path@),
    {
        proof {
            use_type_invariant(self);
        }
        match self.position(path) {
            Some(i) => {
                proof {
                    lemma_file_at_entry(self.entries(), i as int);
                }
                Some(self.files[i].1)
            },
            None => None,
        }
    }

    /// Every file of this root, in walking order.
    pub fn walk(&self) -> (r: Vec<FileId>)
        ensures
            r@ == self.files_spec(),
    {
        let mut r: Vec<FileId> = Vec::new();
        let mut i: usize = 0;
        while i < self.files.len()
            invariant
                i <= self.files.len(),
                r@ == self.files_spec().take(i as int),
            decreases self.files.len() - i,
        {
            r.push(self.files[i].1);
            i = i + 1;
            assert(r@ =~= self.files_spec().take(i as int));
        }
        assert(self.files_spec().take(i as int) =~= self.files_spec());
        r
    }

    /// Makes `path` name `file_id`, in place of any file it named before.
    pub fn insert_file(&mut self, path: String, file_id: FileId)
        ensures
            final(self).library() == old(self).library(),
            forall|p: Seq<char>|
                #[trigger] final(self).file_for_path(p) == if p == path@ {
                    Some(file_id)
                } else {
                    old(self).file_for_path(p)
                },
            !has_path(old(self).entries(), path@) ==> final(self).entries() == old(self).entries().push(
                (path@, file_id),
            ),
            paths_distinct(final(self).entries()),
    {
        proof {
            use_type_invariant(&*self);
        }
        let ghost before = self.entries();
        match self.position(&path) {
            Some(i) => {
                let mut files: Vec<(String, FileId)> = Vec::new();
                std::mem::swap(&mut files, &mut self.files);
                let ghost pv = path@;
                files.set(i, (path, file_id));
                proof {
                    let after = files@.map_values(|e: (String, FileId)| (e.0@, e.1));
                    assert(after =~= before.update(i as int, (pv, file_id)));
                    assert(paths_distinct(after));
                }
                self.files = files;
                proof {
                    let after = self.entries();
                    assert(after =~= before.update(i as int, (path@, file_id)));
                    assert forall|p: Seq<char>|
                        #[trigger] file_at(after, p) == if p == path@ {
                            Some(file_id)
                        } else {
                            file_at(before, p)
                        } by {
                        if p == path@ {
                            lemma_file_at_entry(after, i as int);
                        } else if has_path(before, p) {
                            let k = choose|k: int| 0 <= k < before.len() && #[trigger] before[k].0 == p;
                            lemma_file_at_entry(before, k);
                            lemma_file_at_entry(after, k);
                        } else {
                            assert(!has_path(after, p));
                        }
                    }
                }
            },
            None => {
                let mut files: Vec<(String, FileId)> = Vec::new();
                std::mem::swap(&mut files, &mut self.files);
                let ghost pv = path@;
                files.push((path, file_id));
                proof {
                    let after = files@.map_values(|e: (String, FileId)| (e.0@, e.1));
                    assert(after =~= before.push((pv, file_id)));
                    assert forall|a: int, b: int|
                        0 <= a < after.len() && 0 <= b < after.len() && a != b implies
                        #[trigger] after[a].0 != #[trigger] after[b].0 by {
                        if a == before.len() {
                            assert(before[b].0 == after[b].0);
                        } else if b == before.len() {
                            assert(before[a].0 == after[a].0);
                        }
                    }
                }
                self.files = files;
                proof {
                    let after = self.entries();
                    assert(after =~= before.push((path@, file_id)));
                    assert forall|p: Seq<char>|
                        #[trigger] file_at(after, p) == if p == path@ {
                            Some(file_id)
                        } else {
                            file_at(before, p)
                        } by {
                        if p == path@ {
                            lemma_file_at_entry(after, before.len() as int);
                        } else if has_path(before, p) {
                            let k = choose|k: int| 0 <= k < before.len() && #[trigger] before[k].0 == p;
                            lemma_file_at_entry(before, k);
                            lemma_file_at_entry(after, k);
                        } else {
                            assert(!has_path(after, p));
                        }
                    }
                }
            },
        }
    }

    /// Removes the file that `path` names, if any.
    pub fn remove_file(&mut self, path: &String)
        ensures
            final(self).library() == old(self).library(),
            forall|p: Seq<char>|
                #[trigger] final(self).file_for_path(p) == if p == path@ {
                    None
                } else {
                    old(self).file_for_path(p)
                },
            !has_path(old(self).entries(), path@) ==> final(self).entries() == old(self).entries(),
            has_path(old(self).entries(), path@) ==> exists|i: int|
                0 <= i < old(self).entries().len() && #[trigger] old(self).entries()[i].0 == path@
                    && final(self).entries() == old(self).entries().remove(i),
            paths_distinct(final(self).entries()),
    {
        proof {
            use_type_invariant(&*self);
        }
        let ghost before = self.entries();
        match self.position(path) {
            Some(i) => {
                let mut files: Vec<(String, FileId)> = Vec::new();
                std::mem::swap(&mut files, &mut self.files);
                files.remove(i);
                proof {
                    let after = files@.map_values(|e: (String, FileId)| (e.0@, e.1));
                    assert(after =~= before.remove(i as int));
                    assert forall|a: int, b: int|
                        0 <= a < after.len() && 0 <= b < after.len() && a != b implies
                        #[trigger] after[a].0 != #[trigger] after[b].0 by {
                        let a2 = if a < i { a } else { a + 1 };
                        let b2 = if b < i { b } else { b + 1 };
                        assert(after[a] == before[a2]);
                        assert(after[b] == before[b2]);
                    }
                }
                self.files = files;
                proof {
                    let after = self.entries();
                    assert(after =~= before.remove(i as int));
                    assert forall|p: Seq<char>|
                        #[trigger] file_at(after, p) == if p == path@ {
                            None
                        } else {
                            file_at(before, p)
                        } by {
                        if p == path@ {
                            assert(!has_path(after, p));
                        } else if has_path(before, p) {
                            let k = choose|k: int| 0 <= k < before.len() && #[trigger] before[k].0 == p;
                            lemma_file_at_entry(before, k);
                            if k < i {
                                lemma_file_at_entry(after, k);
                            } else {
                                lemma_file_at_entry(after, k - 1);
                            }
                        } else {
                            assert(!has_path(after, p));
                        }
                    }
                }
            },
            None => {},
        }
    }
}


/// A directed edge from one crate to a crate it depends on, under the name
/// by which the dependent crate refers to it.
#[derive(Debug, PartialEq, Eq)]
pub struct Dependency {
    pub crate_id: CrateId,
    pub name: String,
}

impl Dependency {
    pub fn crate_id(&self) -> (r: CrateId)
        ensures
            r == self.crate_id,
    {
        self.crate_id
    }
}

/// What the graph holds of one crate.
#[derive(Debug, PartialEq, Eq)]
pub struct CrateData {
    pub file_id: FileId,
    pub edition: Edition,
    pub dependencies: Vec<Dependency>,
}

/// The crates of the project, each with its root file, its edition and its
/// dependencies. A crate's id is its position in the graph.
///
/// The graph is acyclic by the contract of whoever builds it; it is not
/// checked here.
#[derive(Debug, PartialEq, Eq)]
pub struct CrateGraph {
    crates: Vec<CrateData>,
}

/// The crate of least id among those whose root file is `file_id`.
pub open spec fn crate_with_root(roots: Seq<FileId>, file_id: FileId) -> Option<CrateId> {
    if exists|i: int| 0 <= i < roots.len() && #[trigger] roots[i] == file_id {
        let i = choose|i: int|
            0 <= i < roots.len() && #[trigger] roots[i] == file_id && forall|j: int|
                0 <= j < i ==> #[trigger] roots[j] != file_id;
        Some(CrateId(i as u32))
    } else {
        None
    }
}

/// Every crate whose root file is `file_id`, by increasing id.
pub open spec fn crates_with_root(roots: Seq<FileId>, file_id: FileId) -> Seq<CrateId>
    decreases roots.len(),
{
    if roots.len() == 0 {
        Seq::empty()
    } else {
        let before = crates_with_root(roots.drop_last(), file_id);
        if roots.last() == file_id {
            before.push(CrateId((roots.len() - 1) as u32))
        } else {
            before
        }
    }
}

/// The crates that `crates_with_root` lists are exactly those rooted at
/// `file_id`, each once.
pub proof fn lemma_crates_with_root(roots: Seq<FileId>, file_id: FileId)
    requires
        roots.len() <= u32::MAX,
    ensures
        crates_with_root(roots, file_id).no_duplicates(),
        forall|c: CrateId|
            #[trigger] crates_with_root(roots, file_id).contains(c) <==> c.0 < roots.len()
                && roots[c.0 as int] == file_id,
    decreases roots.len(),
{
    if roots.len() > 0 {
        let before = roots.drop_last();
        lemma_crates_with_root(before, file_id);
        let last = CrateId((roots.len() - 1) as u32);
        let r = crates_with_root(roots, file_id);
        assert forall|c: CrateId| #[trigger] r.contains(c) <==> c.0 < roots.len()
            && roots[c.0 as int] == file_id by {
            if roots.last() == file_id {
                if c == last {
                    assert(r[r.len() - 1] == c);
                } else if crates_with_root(before, file_id).contains(c) {
                    let k = choose|k: int| 0 <= k < crates_with_root(before, file_id).len()
                        && crates_with_root(before, file_id)[k] == c;
                    assert(r[k] == c);
                }
            }
        }
        if roots.last() == file_id {
            assert(!crates_with_root(before, file_id).contains(last));
        }
    }
}

impl CrateGraph {
    /// The root file of each crate, by crate id.
    pub closed spec fn roots(&self) -> Seq<FileId> {
        self.crates@.map_values(|c: CrateData| c.file_id)
    }

    /// The edition of each crate, by crate id.
    pub closed spec fn editions(&self) -> Seq<Edition> {
        self.crates@.map_values(|c: CrateData| c.edition)
    }

    /// The dependencies of each crate, by crate id.
    pub closed spec fn deps(&self) -> Seq<Seq<(CrateId, Seq<char>)>> {
        self.crates@.map_values(
            |c: CrateData| c.dependencies@.map_values(|d: Dependency| (d.crate_id, d.name@)),
        )
    }

    /// Every crate id fits in its integer type.
    #[verifier::type_invariant]
    spec fn inv(&self) -> bool {
        self.crates.len() <= u32::MAX
    }

    /// The number of crates; every crate id fits in its integer type.
    pub fn len(&self) -> (r: usize)
        ensures
            r == self.roots().len(),
            r <= u32::MAX,
    {
        proof {
            use_type_invariant(self);
        }
        self.crates.len()
    }

    pub open spec fn contains(&self, id: CrateId) -> bool {
        id.0 < self.roots().len()
    }

    pub fn new() -> (r: CrateGraph)
        ensures
            r.roots() == Seq::<FileId>::empty(),
    {
        let r = CrateGraph { crates: Vec::new() };
        assert(r.roots() =~= Seq::<FileId>::empty());
        r
    }

    /// Adds a crate whose root is `file_id`; its id comes after all others.
    pub fn add_crate_root(&mut self, file_id: FileId, edition: Edition) -> (r: CrateId)
        requires
            old(self).roots().len() < u32::MAX,
        ensures
            r == CrateId(old(self).roots().len() as u32),
            final(self).roots() == old(self).roots().push(file_id),
            final(self).editions() == old(self).editions().push(edition),
            final(self).deps() == old(self).deps().push(Seq::empty()),
    {
        proof {
            use_type_invariant(&*self);
        }
        let id = CrateId(self.crates.len() as u32);
        let ghost (roots, editions, deps) = (self.roots(), self.editions(), self.deps());
        let mut crates: Vec<CrateData> = Vec::new();
        std::mem::swap(&mut crates, &mut self.crates);
        crates.push(CrateData { file_id, edition, dependencies: Vec::new() });
        self.crates = crates;
        assert(self.roots() =~= roots.push(file_id));
        assert(self.editions() =~= editions.push(edition));
        assert(self.deps()[self.deps().len() - 1] =~= Seq::<(CrateId, Seq<char>)>::empty());
        assert(self.deps() =~= deps.push(Seq::empty()));
        id
    }

    /// Records that `from` depends on `to` under `name`.
    pub fn add_dep(&mut self, from: CrateId, name: String, to: CrateId)
        requires
            old(self).contains(from),
            old(self).contains(to),
        ensures
            final(self).roots() == old(self).roots(),
            final(self).editions() == old(self).editions(),
            final(self).deps() == old(self).deps().update(
                from.0 as int,
                old(self).deps()[from.0 as int].push((to, name@)),
            ),
    {
        proof {
            use_type_invariant(&*self);
        }
        let ghost (roots, editions, deps) = (self.roots(), self.editions(), self.deps());
        let ghost name_view = name@;
        let i = from.0 as usize;
        let mut crates: Vec<CrateData> = Vec::new();
        std::mem::swap(&mut crates, &mut self.crates);
        let mut data = crates.remove(i);
        data.dependencies.push(Dependency { crate_id: to, name });
        crates.insert(i, data);
        self.crates = crates;
        assert(self.roots() =~= roots);
        assert(self.editions() =~= editions);
        assert(self.deps()[i as int] =~= deps[i as int].push((to, name_view)));
        assert(self.deps() =~= deps.update(i as int, deps[i as int].push((to, name_view))));
    }

    pub fn crate_root(&self, crate_id: CrateId) -> (r: FileId)
        requires
            self.contains(crate_id),
        ensures
            r == self.roots()[crate_id.0 as int],
            self.roots().len() <= u32::MAX,
    {
        proof {
            use_type_invariant(self);
        }
        self.crates[crate_id.0 as usize].file_id
    }

    pub fn edition(&self, crate_id: CrateId) -> (r: Edition)
        requires
            self.contains(crate_id),
        ensures
            r == self.editions()[crate_id.0 as int],
    {
        self.crates[crate_id.0 as usize].edition
    }

    pub fn dependencies(&self, crate_id: CrateId) -> (r: &[Dependency])
        requires
            self.contains(crate_id),
        ensures
            r@.map_values(|d: Dependency| (d.crate_id, d.name@)) == self.deps()[crate_id.0 as int],
    {
        self.crates[crate_id.0 as usize].dependencies.as_slice()
    }

    /// Every crate whose root file is `file_id`, by increasing id.
    pub fn crates_for_crate_root(&self, file_id: FileId) -> (r: Vec<CrateId>)
        ensures
            r@ == crates_with_root(self.roots(), file_id),
            self.roots().len() <= u32::MAX,
    {
        proof {
            use_type_invariant(self);
        }
        let ghost roots = self.roots();
        let mut r: Vec<CrateId> = Vec::new();
        let mut i: usize = 0;
        while i < self.crates.len()
            invariant
                i <= self.crates.len(),
                roots == self.roots(),
                roots.len() == self.crates.len(),
                self.crates.len() <= u32::MAX,
                r@ == crates_with_root(roots.take(i as int), file_id),
            decreases self.crates.len() - i,
        {
            assert(roots.take(i as int + 1).drop_last() =~= roots.take(i as int));
            if self.crates[i].file_id == file_id {
                r.push(CrateId(i as u32));
            }
            i = i + 1;
        }
        assert(roots.take(i as int) =~= roots);
        r
    }

    /// The crate of least id whose root file is `file_id`, if any.
    pub fn crate_id_for_crate_root(&self, file_id: FileId) -> (r: Option<CrateId>)
        ensures
            r == crate_with_root(self.roots(), file_id),
            self.roots().len() <= u32::MAX,
    {
        proof {
            use_type_invariant(self);
        }
        let ghost roots = self.roots();
        let mut i: usize = 0;
        while i < self.crates.len()
            invariant
                i <= self.crates.len(),
                roots == self.roots(),
                roots.len() == self.crates.len(),
                self.crates.len() <= u32::MAX,
                forall|j: int| 0 <= j < i ==> #[trigger] roots[j] != file_id,
            decreases self.crates.len() - i,
        {
            if self.crates[i].file_id == file_id {
                proof {
                    assert(roots[i as int] == file_id);
                    let k = choose|k: int|
                        0 <= k < roots.len() && #[trigger] roots[k] == file_id && forall|j: int|
                            0 <= j < k ==> #[trigger] roots[j] != file_id;
                    assert(k == i);
                }
                return Some(CrateId(i as u32));
            }
            i = i + 1;
        }
        None
    }
}

/// A range of byte offsets into a file's text, end excluded.
#[derive(Clone, Copy, Debug, PartialEq, Eq, Structural)]
pub struct TextRange {
    start: u32,
    end: u32,
}

impl TextRange {
    pub closed spec fn start_spec(&self) -> u32 {
        self.start
    }

    pub closed spec fn end_spec(&self) -> u32 {
        self.end
    }

    pub fn new(start: u32, end: u32) -> (r: TextRange)
        requires
            start <= end,
        ensures
            r.start_spec() == start,
            r.end_spec() == end,
    {
        TextRange { start, end }
    }

    pub fn start(&self) -> (r: u32)
        ensures
            r == self.start_spec(),
    {
        self.start
    }

    pub fn end(&self) -> (r: u32)
        ensures
            r == self.end_spec(),
    {
        self.end
    }

    pub fn len(&self) -> (r: u32)
        requires
            self.start_spec() <= self.end_spec(),
        ensures
            r == self.end_spec() - self.start_spec(),
    {
        self.end - self.start
    }
}

/// A byte offset in a file.
#[derive(Clone, Copy, Debug, PartialEq, Eq, Structural)]
pub struct FilePosition {
    pub file_id: FileId,
    pub offset: u32,
}

/// A range of bytes in a file.
#[derive(Clone, Copy, Debug, PartialEq, Eq, Structural)]
pub struct FileRange {
    pub file_id: FileId,
    pub range: TextRange,
}

} // verus!
