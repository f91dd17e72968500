//! The path index: which watched path runs which pipelines.
use vstd::prelude::*;
use crate::content::PipelineStore;

verus! {

/// What an administrative operation on an index can refuse.
#[derive(Debug, PartialEq, Eq)]
pub enum StoreError {
    /// The path is already registered.
    DuplicatePath(String),
    /// No registered path has this id.
    PathNotFound(u32),
    /// A pipeline of this name already exists.
    DuplicateName(String),
    /// No pipeline has this name.
    PipelineNotFound(String),
    /// Every id a path can take has been handed out.
    IdsExhausted,
    /// A loaded index holds two records with one id, path or name.
    Inconsistent,
}

/// The names of a list of strings.
pub open spec fn names_view(v: Seq<String>) -> Seq<Seq<char>> {
    v.map_values(|s: String| s@)
}

/// A watched path and the pipelines that run, in this order, when it changes.
#[derive(Debug)]
pub struct FileRecord {
    pub id: u32,
    pub path: String,
    pub pipes: Vec<String>,
}

/// The value of a [`FileRecord`].
pub ghost struct FileEntry {
    pub id: u32,
    pub path: Seq<char>,
    pub pipes: Seq<Seq<char>>,
}

impl View for FileRecord {
    type V = FileEntry;

    open spec fn view(&self) -> FileEntry {
        FileEntry { id: self.id, path: self.path@, pipes: names_view(self.pipes@) }
    }
}

/// The values of a list of path records.
pub open spec fn entries_view(v: Seq<FileRecord>) -> Seq<FileEntry> {
    v.map_values(|f: FileRecord| f@)
}

/// The value of a [`FilesStore`]: its records in order of registration and
/// the highest id ever handed out.
pub ghost struct PathIndex {
    pub files: Seq<FileEntry>,
    pub last_id: u32,
}

impl PathIndex {
    /// No two records share an id or a path, and no id is above `last_id`.
    pub open spec fn wf(self) -> bool {
        &&& distinct_entries(self.files)
        &&& forall|i: int| 0 <= i < self.files.len() ==> self.files[i].id <= self.last_id
    }

    /// Some record is for `path`.
    pub open spec fn has_path(self, path: Seq<char>) -> bool {
        exists|i: int| 0 <= i < self.files.len() && self.files[i].path == path
    }

    /// Some record has `id`.
    pub open spec fn has_id(self, id: u32) -> bool {
        exists|i: int| 0 <= i < self.files.len() && self.files[i].id == id
    }

    /// The record registered for `path`; meaningful where there is one.
    pub open spec fn record_for(self, path: Seq<char>) -> FileEntry {
        self.files[choose|i: int| 0 <= i < self.files.len() && self.files[i].path == path]
    }

    /// The record that registering `path` adds: it takes the next id.
    pub open spec fn next_entry(self, path: Seq<char>, pipes: Seq<Seq<char>>) -> FileEntry {
        FileEntry { id: (self.last_id + 1) as u32, path, pipes }
    }

    /// The index after `path` has been registered.
    pub open spec fn with_path(self, path: Seq<char>, pipes: Seq<Seq<char>>) -> PathIndex {
        PathIndex {
            files: self.files.push(self.next_entry(path, pipes)),
            last_id: (self.last_id + 1) as u32,
        }
    }

    /// The position of the record with `id`; meaningful where there is one.
    pub open spec fn position_of_id(self, id: u32) -> int {
        choose|i: int| 0 <= i < self.files.len() && self.files[i].id == id
    }

    /// The index after the record with `id` has been removed.
    pub open spec fn without_id(self, id: u32) -> PathIndex {
        PathIndex { files: self.files.remove(self.position_of_id(id)), last_id: self.last_id }
    }
}

/// No two of these records share an id or a path.
pub open spec fn distinct_entries(files: Seq<FileEntry>) -> bool {
    forall|i: int, j: int|
        0 <= i < j < files.len() ==> files[i].id != files[j].id && files[i].path != files[j].path
}

/// The highest id among these records, or 0 if there are none.
pub open spec fn max_id(files: Seq<FileEntry>) -> u32
    decreases files.len(),
{
    if files.len() == 0 {
        0
    } else {
        let m = max_id(files.drop_last());
        if files.last().id > m {
            files.last().id
        } else {
            m
        }
    }
}

/// Every id among these records is at most their highest id.
pub proof fn lemma_max_id_bounds(files: Seq<FileEntry>)
    ensures
        forall|i: int| 0 <= i < files.len() ==> files[i].id <= max_id(files),
    decreases files.len(),
{
    if files.len() > 0 {
        lemma_max_id_bounds(files.drop_last());
        assert forall|i: int| 0 <= i < files.len() implies files[i].id <= max_id(files) by {
            if i < files.len() - 1 {
                assert(files[i] == files.drop_last()[i]);
            }
        }
    }
}

/// The registered paths, kept in order of registration.
pub struct FilesStore {
    files: Vec<FileRecord>,
    last_id: u32,
}

impl View for FilesStore {
    type V = PathIndex;

    closed spec fn view(&self) -> PathIndex {
        PathIndex { files: entries_view(self.files@), last_id: self.last_id }
    }
}

impl FileRecord {
    /// A copy of the record.
    pub fn copy_record(&self) -> (r: FileRecord)
        ensures
            r@ == self@,
    {
        let pipes = self.pipes.clone();
        assert(pipes@ =~= self.pipes@);
        FileRecord { id: self.id, path: self.path.clone(), pipes }
    }
}

/// An operation on the path index, as a value.
pub ghost enum PathOp {
    Add { path: Seq<char>, pipes: Seq<Seq<char>> },
    Delete { id: u32 },
}

/// The index after `op`; a refused operation leaves it as it was.
pub open spec fn path_op_applied(m: PathIndex, op: PathOp) -> PathIndex {
    match op {
        PathOp::Add { path, pipes } => if m.has_path(path) || m.last_id == u32::MAX {
            m
        } else {
            m.with_path(path, pipes)
        },
        PathOp::Delete { id } => if m.has_id(id) {
            m.without_id(id)
        } else {
            m
        },
    }
}

/// The index after each of `ops` in turn.
pub open spec fn path_ops_applied(m: PathIndex, ops: Seq<PathOp>) -> PathIndex
    decreases ops.len(),
{
    if ops.len() == 0 {
        m
    } else {
        path_op_applied(path_ops_applied(m, ops.drop_last()), ops.last())
    }
}

/// The records that the accepted additions among `ops` created.
pub open spec fn paths_added(m: PathIndex, ops: Seq<PathOp>) -> Seq<FileEntry>
    decreases ops.len(),
{
    if ops.len() == 0 {
        Seq::empty()
    } else {
        let prev = path_ops_applied(m, ops.drop_last());
        let added = paths_added(m, ops.drop_last());
        match ops.last() {
            PathOp::Add { path, pipes } => if prev.has_path(path) || prev.last_id == u32::MAX {
                added
            } else {
                added.push(prev.next_entry(path, pipes))
            },
            PathOp::Delete { .. } => added,
        }
    }
}

/// The ids that the accepted deletions among `ops` removed.
pub open spec fn ids_deleted(m: PathIndex, ops: Seq<PathOp>) -> Set<u32>
    decreases ops.len(),
{
    if ops.len() == 0 {
        Set::empty()
    } else {
        let prev = path_ops_applied(m, ops.drop_last());
        let deleted = ids_deleted(m, ops.drop_last());
        match ops.last() {
            PathOp::Delete { id } => if prev.has_id(id) {
                deleted.insert(id)
            } else {
                deleted
            },
            PathOp::Add { .. } => deleted,
        }
    }
}

/// Whatever paths are added and deleted, no two live records share an id
/// or a path, and the records listed afterwards are exactly those that were
/// there or were added, less those whose id was deleted: an id is never
/// handed out twice.
#[verifier::spinoff_prover]
pub proof fn lemma_path_ops_survivors(m: PathIndex, ops: Seq<PathOp>)
    requires
        m.wf(),
    ensures
        path_ops_applied(m, ops).wf(),
        forall|e: FileEntry|
            path_ops_applied(m, ops).files.contains(e) <==> (m.files.contains(e) || paths_added(
                m,
                ops,
            ).contains(e)) && !ids_deleted(m, ops).contains(e.id),
    decreases ops.len(), 1nat,
{
    lemma_path_ops_ids(m, ops);
    if ops.len() == 0 {
        assert(paths_added(m, ops) =~= Seq::<FileEntry>::empty());
        assert(ids_deleted(m, ops) =~= Set::<u32>::empty());
    } else {
        let init = ops.drop_last();
        lemma_path_ops_survivors(m, init);
        lemma_path_ops_ids(m, init);
        let prev = path_ops_applied(m, init);
        let cur = path_ops_applied(m, ops);
        let added = paths_added(m, init);
        let deleted = ids_deleted(m, init);
        assert(cur == path_op_applied(prev, ops.last()));
        match ops.last() {
            PathOp::Add { path, pipes } => {
                assert(ids_deleted(m, ops) == deleted);
                if !(prev.has_path(path) || prev.last_id == u32::MAX) {
                    let fresh = prev.next_entry(path, pipes);
                    assert(paths_added(m, ops) == added.push(fresh));
                    assert(cur == prev.with_path(path, pipes));
                    assert(!deleted.contains(fresh.id));
                    assert forall|e: FileEntry| cur.files.contains(e) <==> prev.files.contains(e)
                        || e == fresh by {
                        if cur.files.contains(e) {
                            let k = choose|k: int| 0 <= k < cur.files.len() && cur.files[k] == e;
                            if k < prev.files.len() {
                                assert(prev.files[k] == e);
                            }
                        }
                        if prev.files.contains(e) {
                            let k = choose|k: int| 0 <= k < prev.files.len() && prev.files[k] == e;
                            assert(cur.files[k] == e);
                        }
                        if e == fresh {
                            assert(cur.files[prev.files.len() as int] == e);
                        }
                    }
                    assert forall|e: FileEntry| added.push(fresh).contains(e) <==> added.contains(e)
                        || e == fresh by {
                        if added.push(fresh).contains(e) {
                            let k = choose|k: int|
                                0 <= k < added.len() + 1 && added.push(fresh)[k] == e;
                            if k < added.len() {
                                assert(added[k] == e);
                            }
                        }
                        if added.contains(e) {
                            let k = choose|k: int| 0 <= k < added.len() && added[k] == e;
                            assert(added.push(fresh)[k] == e);
                        }
                        if e == fresh {
                            assert(added.push(fresh)[added.len() as int] == e);
                        }
                    }
                    assert forall|i: int, j: int|
                        0 <= i < j < cur.files.len() implies cur.files[i].id != cur.files[j].id
                        && cur.files[i].path != cur.files[j].path by {
                        if j == prev.files.len() {
                            assert(cur.files[i] == prev.files[i]);
                            assert(prev.files.contains(prev.files[i]));
                        }
                    }
                }
            },
            PathOp::Delete { id } => {
                assert(paths_added(m, ops) == added);
                if prev.has_id(id) {
                    assert(ids_deleted(m, ops) == deleted.insert(id));
                    let pos = prev.position_of_id(id);
                    let after = prev.files.remove(pos);
                    assert(cur.files == after);
                    assert forall|e: FileEntry| after.contains(e) <==> prev.files.contains(e)
                        && e.id != id by {
                        if after.contains(e) {
                            let k = choose|k: int| 0 <= k < after.len() && after[k] == e;
                            if k < pos {
                                assert(prev.files[k] == e);
                            } else {
                                assert(prev.files[k + 1] == e);
                            }
                        }
                        if prev.files.contains(e) && e.id != id {
                            let k = choose|k: int| 0 <= k < prev.files.len() && prev.files[k] == e;
                            if k < pos {
                                assert(after[k] == e);
                            } else {
                                assert(after[k - 1] == e);
                            }
                        }
                    }
                    assert forall|i: int, j: int|
                        0 <= i < j < after.len() implies after[i].id != after[j].id
                        && after[i].path != after[j].path by {
                        let a = if i < pos { i } else { i + 1 };
                        let b = if j < pos { j } else { j + 1 };
                        assert(after[i] == prev.files[a]);
                        assert(after[j] == prev.files[b]);
                    }
                    assert forall|i: int| 0 <= i < after.len() implies after[i].id <= cur.last_id by {
                        let a = if i < pos { i } else { i + 1 };
                        assert(after[i] == prev.files[a]);
                    }
                }
            },
        }
    }
}

/// Every id that a record ever held, or that was deleted, is at most the
/// highest id handed out, which never goes down.
#[verifier::spinoff_prover]
proof fn lemma_path_ops_ids(m: PathIndex, ops: Seq<PathOp>)
    requires
        m.wf(),
    ensures
        path_ops_applied(m, ops).last_id >= m.last_id,
        forall|e: FileEntry|
            m.files.contains(e) || paths_added(m, ops).contains(e) ==> e.id <= path_ops_applied(
                m,
                ops,
            ).last_id,
        forall|id: u32| ids_deleted(m, ops).contains(id) ==> id <= path_ops_applied(m, ops).last_id,
    decreases ops.len(), 0nat,
{
    if ops.len() == 0 {
        assert forall|e: FileEntry| m.files.contains(e) implies e.id <= m.last_id by {
            let k = choose|k: int| 0 <= k < m.files.len() && m.files[k] == e;
        }
    } else {
        let init = ops.drop_last();
        lemma_path_ops_ids(m, init);
        lemma_path_ops_survivors(m, init);
        let prev = path_ops_applied(m, init);
        let cur = path_ops_applied(m, ops);
        let added = paths_added(m, init);
        let deleted = ids_deleted(m, init);
        assert(cur == path_op_applied(prev, ops.last()));
        match ops.last() {
            PathOp::Add { path, pipes } => {
                assert(ids_deleted(m, ops) == deleted);
                if !(prev.has_path(path) || prev.last_id == u32::MAX) {
                    let fresh = prev.next_entry(path, pipes);
                    assert(paths_added(m, ops) == added.push(fresh));
                    assert forall|e: FileEntry| added.push(fresh).contains(e) implies added.contains(e)
                        || e == fresh by {
                        let k = choose|k: int|
                            0 <= k < added.len() + 1 && added.push(fresh)[k] == e;
                        if k < added.len() {
                            assert(added[k] == e);
                        }
                    }
                } else {
                    assert(paths_added(m, ops) == added);
                }
            },
            PathOp::Delete { id } => {
                assert(paths_added(m, ops) == added);
                if prev.has_id(id) {
                    assert(ids_deleted(m, ops) == deleted.insert(id));
                    let k = choose|k: int| 0 <= k < prev.files.len() && prev.files[k].id == id;
                    assert(prev.files[k].id <= prev.last_id);
                } else {
                    assert(ids_deleted(m, ops) == deleted);
                }
            },
        }
    }
}

/// Copies of these records, in the same order.
fn copy_records(v: &Vec<FileRecord>) -> (r: Vec<FileRecord>)
    ensures
        entries_view(r@) == entries_view(v@),
{
    let mut r: Vec<FileRecord> = Vec::new();
    let mut i: usize = 0;
    while i < v.len()
        invariant
            i <= v@.len(),
            r@.len() == i,
            entries_view(r@) =~= entries_view(v@).subrange(0, i as int),
        decreases v@.len() - i,
    {
        let c = v[i].copy_record();
        let ghost before = r@;
        r.push(c);
        assert(r@ == before.push(c));
        assert(entries_view(r@) =~= entries_view(v@).subrange(0, i + 1)) by {
            assert forall|k: int| 0 <= k < i + 1 implies entries_view(r@)[k] == entries_view(v@)[k] by {
                if k < i {
                    assert(r@[k] == before[k]);
                    assert(entries_view(before)[k] == entries_view(v@).subrange(0, i as int)[k]);
                } else {
                    assert(r@[k] == c);
                }
            }
        }
        i = i + 1;
    }
    assert(entries_view(v@).subrange(0, v@.len() as int) =~= entries_view(v@));
    r
}

/// The highest id among the records, or 0 if there are none.
pub fn highest_id(records: &Vec<FileRecord>) -> (r: u32)
    ensures
        r == max_id(entries_view(records@)),
{
    let ghost all = entries_view(records@);
    let mut m: u32 = 0;
    let mut i: usize = 0;
    while i < records.len()
        invariant
            i <= records@.len(),
            all == entries_view(records@),
            m == max_id(all.subrange(0, i as int)),
        decreases records@.len() - i,
    {
        assert(all.subrange(0, i + 1).drop_last() =~= all.subrange(0, i as int));
        if records[i].id > m {
            m = records[i].id;
        }
        i = i + 1;
    }
    assert(all.subrange(0, records@.len() as int) =~= all);
    m
}

impl FilesStore {
    #[verifier::type_invariant]
    closed spec fn inv(&self) -> bool {
        self@.wf()
    }

    /// An index with no paths.
    pub fn new() -> (r: FilesStore)
        ensures
            r@.files.len() == 0,
            r@.last_id == 0,
    {
        let r = FilesStore { files: Vec::new(), last_id: 0 };
        assert(r@.files =~= Seq::<FileEntry>::empty());
        r
    }

    /// An index of the given records, in this order, as read back from
    /// storage. The highest id handed out so far is taken to be `last_id` or,
    /// if a record has a higher one, that. The records are refused where two
    /// of them share an id or a path.
    pub fn from_records(records: Vec<FileRecord>, last_id: u32) -> (r: Result<FilesStore, StoreError>)
        ensures
            r is Ok <==> distinct_entries(entries_view(records@)),
            r matches Err(e) ==> e == StoreError::Inconsistent,
            r matches Ok(s) ==> s@ == (PathIndex {
                files: entries_view(records@),
                last_id: if max_id(entries_view(records@)) > last_id {
                    max_id(entries_view(records@))
                } else {
                    last_id
                },
            }),
    {
        let ghost all = entries_view(records@);
        let n = records.len();
        let mut i: usize = 0;
        while i < n
            invariant
                n == records@.len(),
                all == entries_view(records@),
                i <= n,
                forall|a: int, b: int| 0 <= a < b < n && a < i ==> all[a].id != all[b].id
                    && all[a].path != all[b].path,
            decreases n - i,
        {
            let mut j: usize = i + 1;
            while j < n
                invariant
                    n == records@.len(),
                    all == entries_view(records@),
                    i < n,
                    i < j <= n,
                    forall|a: int, b: int| 0 <= a < b < n && a < i ==> all[a].id != all[b].id
                        && all[a].path != all[b].path,
                    forall|b: int| i < b < j ==> all[i as int].id != all[b].id
                        && all[i as int].path != all[b].path,
                decreases n - j,
            {
                if records[i].id == records[j].id || records[i].path == records[j].path {
                    assert(all[i as int].id == all[j as int].id
                        || all[i as int].path == all[j as int].path);
                    return Err(StoreError::Inconsistent);
                }
                j = j + 1;
            }
            i = i + 1;
        }
        let high = highest_id(&records);
        let top = if high > last_id { high } else { last_id };
        proof {
            lemma_max_id_bounds(all);
        }
        Ok(FilesStore { files: records, last_id: top })
    }

    /// The highest id ever handed out.
    pub fn last_id(&self) -> (r: u32)
        ensures
            r == self@.last_id,
    {
        self.last_id
    }

    /// The position of the record for `path`, if there is one.
    fn position_of_path(&self, path: &String) -> (r: Option<usize>)
        ensures
            r is None <==> !self@.has_path(path@),
            r matches Some(i) ==> i < self@.files.len() && self@.files[i as int].path == path@,
    {
        let mut i: usize = 0;
        while i < self.files.len()
            invariant
                i <= self.files@.len(),
                forall|j: int| 0 <= j < i ==> self@.files[j].path != path@,
            decreases self.files@.len() - i,
        {
            if self.files[i].path == *path {
                assert(self@.files[i as int].path == path@);
                return Some(i);
            }
            i = i + 1;
        }
        None
    }

    /// The position of the record with `id`, if there is one.
    fn position_of_id(&self, id: u32) -> (r: Option<usize>)
        ensures
            r is None <==> !self@.has_id(id),
            r matches Some(i) ==> i < self@.files.len() && self@.files[i as int].id == id,
    {
        let mut i: usize = 0;
        while i < self.files.len()
            invariant
                i <= self.files@.len(),
                forall|j: int| 0 <= j < i ==> self@.files[j].id != id,
            decreases self.files@.len() - i,
        {
            if self.files[i].id == id {
                assert(self@.files[i as int].id == id);
                return Some(i);
            }
            i = i + 1;
        }
        None
    }
}

/// Registers `path` with the pipelines that run, in this order, when it
/// changes. The pipeline names are not checked against the pipeline index.
/// A path that is already registered is refused, and so is any path once
/// every id has been handed out; the index is then left as it was.
pub fn add_path(files: &mut FilesStore, path: String, pipelines: Vec<String>) -> (r: Result<
    FileRecord,
    StoreError,
>)
    ensures
        final(files)@.wf(),
        final(files)@ == path_op_applied(
            old(files)@,
            PathOp::Add { path: path@, pipes: names_view(pipelines@) },
        ),
        old(files)@.has_path(path@) ==> r == Err::<FileRecord, StoreError>(
            StoreError::DuplicatePath(path),
        ) && final(files)@ == old(files)@,
        !old(files)@.has_path(path@) && old(files)@.last_id == u32::MAX ==> r == Err::<
            FileRecord,
            StoreError,
        >(StoreError::IdsExhausted) && final(files)@ == old(files)@,
        !old(files)@.has_path(path@) && old(files)@.last_id < u32::MAX ==> (r matches Ok(rec)
            && rec@ == old(files)@.next_entry(path@, names_view(pipelines@)) && final(files)@
            == old(files)@.with_path(path@, names_view(pipelines@))),
{
    proof {
        use_type_invariant(&*files);
    }
    if files.position_of_path(&path).is_some() {
        return Err(StoreError::DuplicatePath(path));
    }
    if files.last_id == u32::MAX {
        return Err(StoreError::IdsExhausted);
    }
    let id = files.last_id + 1;
    let record = FileRecord { id, path, pipes: pipelines };
    let out = record.copy_record();
    let ghost before = files@;
    let mut records = copy_records(&files.files);
    records.push(record);
    proof {
        assert(entries_view(records@) =~= before.files.push(before.next_entry(out@.path, out@.pipes)));
    }
    *files = FilesStore { files: records, last_id: id };
    assert(files@ == before.with_path(out@.path, out@.pipes));
    Ok(out)
}

/// Removes the record with `id`. The pipelines it names are left alone. An
/// id that no record has is refused and the index is left as it was.
pub fn delete_path(files: &mut FilesStore, id: u32) -> (r: Result<(), StoreError>)
    ensures
        final(files)@.wf(),
        final(files)@ == path_op_applied(old(files)@, PathOp::Delete { id }),
        !old(files)@.has_id(id) ==> r == Err::<(), StoreError>(StoreError::PathNotFound(id))
            && final(files)@ == old(files)@,
        old(files)@.has_id(id) ==> r is Ok && final(files)@ == old(files)@.without_id(id),
        forall|e: FileEntry|
            final(files)@.files.contains(e) <==> old(files)@.files.contains(e) && e.id != id,
{
    proof {
        use_type_invariant(&*files);
    }
    match files.position_of_id(id) {
        None => Err(StoreError::PathNotFound(id)),
        Some(pos) => {
            let ghost before = files@;
            let mut records = copy_records(&files.files);
            records.remove(pos);
            proof {
                let p = before.position_of_id(id);
                assert(before.files[pos as int].id == id);
                assert(p == pos);
                assert(entries_view(records@) =~= before.files.remove(pos as int));
                let after = before.files.remove(pos as int);
                assert forall|e: FileEntry| after.contains(e) <==> before.files.contains(e) && e.id != id by {
                    if after.contains(e) {
                        let k = choose|k: int| 0 <= k < after.len() && after[k] == e;
                        if k < pos {
                            assert(before.files[k] == e);
                        } else {
                            assert(before.files[k + 1] == e);
                        }
                    }
                    if before.files.contains(e) && e.id != id {
                        let k = choose|k: int| 0 <= k < before.files.len() && before.files[k] == e;
                        if k < pos {
                            assert(after[k] == e);
                        } else {
                            assert(k != pos);
                            assert(after[k - 1] == e);
                        }
                    }
                }
            }
            let last_id = files.last_id;
            *files = FilesStore { files: records, last_id };
            Ok(())
        },
    }
}

/// Whether the text of an index file holds no records at all. An empty
/// file is a valid index with no records, not a parse error.
pub fn is_empty_index(contents: &str) -> (r: bool)
    ensures
        r == (contents@.len() == 0),
{
    contents.is_empty()
}

/// The state a fresh installation starts from: no paths and no pipelines.
pub fn init() -> (r: (FilesStore, PipelineStore))
    ensures
        r.0@.files.len() == 0,
        r.0@.last_id == 0,
        r.1@.len() == 0,
{
    (FilesStore::new(), PipelineStore::new())
}

/// The record with `id`, if there is one.
pub fn get_path_by_id(files: &FilesStore, id: u32) -> (r: Option<FileRecord>)
    ensures
        r is None <==> !files@.has_id(id),
        r matches Some(rec) ==> files@.files.contains(rec@) && rec@.id == id,
{
    match files.position_of_id(id) {
        None => None,
        Some(i) => {
            let rec = files.files[i].copy_record();
            assert(files@.files[i as int] == rec@);
            Some(rec)
        },
    }
}

/// Every registered path, in order of registration.
pub fn list_paths(files: &FilesStore) -> (r: Vec<FileRecord>)
    ensures
        entries_view(r@) == files@.files,
{
    copy_records(&files.files)
}

/// The record registered for exactly this path, if there is one.
pub fn get_path(files: &FilesStore, path: &String) -> (r: Option<FileRecord>)
    ensures
        r is None <==> !files@.has_path(path@),
        r matches Some(rec) ==> rec@ == files@.record_for(path@) && rec@.path == path@,
{
    proof {
        use_type_invariant(files);
    }
    match files.position_of_path(path) {
        None => None,
        Some(i) => {
            let rec = files.files[i].copy_record();
            assert(files@.files[i as int] == rec@);
            let ghost k = choose|k: int| 0 <= k < files@.files.len() && files@.files[k].path == path@;
            assert(files@.files[k].path == path@);
            assert(k == i);
            Some(rec)
        },
    }
}

} // verus!
