//! The pipeline index and the content-addressed store of script bodies.
//!
//! A pipeline is a name for a script body. The body is kept once under its
//! checksum, however many names refer to it, and stays when a name is
//! deleted.
use vstd::prelude::*;
use crate::paths::child_path;
use crate::store::StoreError;

verus! {

/// The SHA-1 digest of the UTF-8 bytes of a script body, as hex digits.
pub uninterp spec fn sha1_hex(content: Seq<char>) -> Seq<char>;

/// Relies on sha1::Sha1::from and the Display of sha1::Digest: the digest
/// of the bytes of `contents`, written out in hex. It depends on the
/// contents alone.
#[verifier::external_body]
fn checksum(contents: &str) -> (r: String)
    ensures
        r@ == sha1_hex(contents@),
{
    sha1::Sha1::from(contents).digest().to_string()
}

/// A pipeline: a name and the checksum of its script body.
#[derive(Debug)]
pub struct PipelineRecord {
    pub name: String,
    pub checksum: String,
}

/// The value of a [`PipelineRecord`].
pub ghost struct PipelineEntry {
    pub name: Seq<char>,
    pub checksum: Seq<char>,
}

impl View for PipelineRecord {
    type V = PipelineEntry;

    open spec fn view(&self) -> PipelineEntry {
        PipelineEntry { name: self.name@, checksum: self.checksum@ }
    }
}

/// The values of a list of pipeline records.
pub open spec fn pipeline_entries(v: Seq<PipelineRecord>) -> Seq<PipelineEntry> {
    v.map_values(|p: PipelineRecord| p@)
}

/// No two of these pipelines share a name.
pub open spec fn distinct_names(pipes: Seq<PipelineEntry>) -> bool {
    forall|i: int, j: int| 0 <= i < j < pipes.len() ==> pipes[i].name != pipes[j].name
}

/// Some pipeline is called `name`.
pub open spec fn has_name(pipes: Seq<PipelineEntry>, name: Seq<char>) -> bool {
    exists|i: int| 0 <= i < pipes.len() && pipes[i].name == name
}

/// The position of the pipeline called `name`; meaningful where there is one.
pub open spec fn position_of_name(pipes: Seq<PipelineEntry>, name: Seq<char>) -> int {
    choose|i: int| 0 <= i < pipes.len() && pipes[i].name == name
}

/// The checksum that `name` stands for, if a pipeline has that name.
pub open spec fn checksum_of(pipes: Seq<PipelineEntry>, name: Seq<char>) -> Option<Seq<char>> {
    if has_name(pipes, name) {
        Some(pipes[position_of_name(pipes, name)].checksum)
    } else {
        None
    }
}

/// The pipelines, kept in the order they were added.
pub struct PipelineStore {
    pipes: Vec<PipelineRecord>,
}

impl View for PipelineStore {
    type V = Seq<PipelineEntry>;

    closed spec fn view(&self) -> Seq<PipelineEntry> {
        pipeline_entries(self.pipes@)
    }
}

/// The value of a [`BlobStore`]: its directory and the checksums whose body
/// is stored there.
pub ghost struct Blobs {
    pub dir: Seq<char>,
    pub checksums: Seq<Seq<char>>,
}

/// The script bodies held in a directory, each in a file named by its
/// checksum. Each checksum is held once.
pub struct BlobStore {
    dir: String,
    checksums: Vec<String>,
}

impl View for BlobStore {
    type V = Blobs;

    closed spec fn view(&self) -> Blobs {
        Blobs { dir: self.dir@, checksums: self.checksums@.map_values(|c: String| c@) }
    }
}

/// What adding the pipeline `name` with body checksum `sum` does: a name
/// already taken is refused and nothing changes; otherwise the pipeline is
/// appended and, where no body with that checksum is stored yet, the body is
/// recorded and the path of the file to write it to is returned.
pub open spec fn pipeline_added(
    pipes: Seq<PipelineEntry>,
    blobs: Blobs,
    name: Seq<char>,
    sum: Seq<char>,
    r: Result<Option<String>, StoreError>,
    pipes2: Seq<PipelineEntry>,
    blobs2: Blobs,
) -> bool {
    if has_name(pipes, name) {
        &&& r matches Err(StoreError::DuplicateName(n)) && n@ == name
        &&& pipes2 == pipes
        &&& blobs2 == blobs
    } else {
        &&& pipes2 == pipes.push(PipelineEntry { name, checksum: sum })
        &&& blobs.checksums.contains(sum) ==> r == Ok::<Option<String>, StoreError>(None)
            && blobs2 == blobs
        &&& !blobs.checksums.contains(sum) ==> (r matches Ok(Some(file)) && file@ == child_path(
            blobs.dir,
            sum,
        ) && blobs2 == (Blobs { dir: blobs.dir, checksums: blobs.checksums.push(sum) }))
    }
}

/// An operation on the pipeline index, as a value.
pub ghost enum PipeOp {
    Add { name: Seq<char>, sum: Seq<char> },
    Delete { name: Seq<char> },
}

/// The pipelines after `op`; a refused operation leaves them as they were.
pub open spec fn pipe_op_applied(pipes: Seq<PipelineEntry>, op: PipeOp) -> Seq<PipelineEntry> {
    match op {
        PipeOp::Add { name, sum } => if has_name(pipes, name) {
            pipes
        } else {
            pipes.push(PipelineEntry { name, checksum: sum })
        },
        PipeOp::Delete { name } => if has_name(pipes, name) {
            pipes.remove(position_of_name(pipes, name))
        } else {
            pipes
        },
    }
}

/// The pipelines after each of `ops` in turn.
pub open spec fn pipe_ops_applied(pipes: Seq<PipelineEntry>, ops: Seq<PipeOp>) -> Seq<
    PipelineEntry,
>
    decreases ops.len(),
{
    if ops.len() == 0 {
        pipes
    } else {
        pipe_op_applied(pipe_ops_applied(pipes, ops.drop_last()), ops.last())
    }
}

/// What the name `n` stands for after `ops`, followed name by name: an
/// addition gives it a checksum unless it has one, a deletion takes the
/// checksum away, and other names are not touched.
pub open spec fn name_after(pipes: Seq<PipelineEntry>, ops: Seq<PipeOp>, n: Seq<char>) -> Option<
    Seq<char>,
>
    decreases ops.len(),
{
    if ops.len() == 0 {
        checksum_of(pipes, n)
    } else {
        let prev = name_after(pipes, ops.drop_last(), n);
        match ops.last() {
            PipeOp::Add { name, sum } => if name == n && prev is None {
                Some(sum)
            } else {
                prev
            },
            PipeOp::Delete { name } => if name == n {
                None
            } else {
                prev
            },
        }
    }
}

/// Where names are distinct, the name at `i` stands for the checksum at `i`.
pub proof fn lemma_checksum_at(pipes: Seq<PipelineEntry>, i: int)
    requires
        distinct_names(pipes),
        0 <= i < pipes.len(),
    ensures
        has_name(pipes, pipes[i].name),
        position_of_name(pipes, pipes[i].name) == i,
        checksum_of(pipes, pipes[i].name) == Some(pipes[i].checksum),
{
    let j = position_of_name(pipes, pipes[i].name);
    assert(pipes[j].name == pipes[i].name);
}

/// Whatever pipelines are added and deleted, no two share a name, and the
/// listed pipelines are exactly the surviving ones: each name stands for
/// what the accepted operations on that name left it.
#[verifier::spinoff_prover]
pub proof fn lemma_pipe_ops_survivors(pipes: Seq<PipelineEntry>, ops: Seq<PipeOp>)
    requires
        distinct_names(pipes),
    ensures
        distinct_names(pipe_ops_applied(pipes, ops)),
        forall|n: Seq<char>|
            checksum_of(pipe_ops_applied(pipes, ops), n) == #[trigger] name_after(pipes, ops, n),
    decreases ops.len(),
{
    if ops.len() > 0 {
        let init = ops.drop_last();
        lemma_pipe_ops_survivors(pipes, init);
        let prev = pipe_ops_applied(pipes, init);
        let cur = pipe_ops_applied(pipes, ops);
        assert(cur == pipe_op_applied(prev, ops.last()));
        match ops.last() {
            PipeOp::Add { name, sum } => {
                if !has_name(prev, name) {
                    let e = PipelineEntry { name, checksum: sum };
                    assert(cur == prev.push(e));
                    assert forall|i: int, j: int| 0 <= i < j < cur.len() implies cur[i].name
                        != cur[j].name by {
                        if j == prev.len() {
                            assert(cur[i] == prev[i]);
                        }
                    }
                    assert forall|n: Seq<char>| checksum_of(cur, n) == #[trigger] name_after(
                        pipes,
                        ops,
                        n,
                    ) by {
                        assert(name_after(pipes, init, n) == checksum_of(prev, n));
                        if n == name {
                            lemma_checksum_at(cur, prev.len() as int);
                        } else if has_name(prev, n) {
                            let i = position_of_name(prev, n);
                            lemma_checksum_at(prev, i);
                            assert(cur[i] == prev[i]);
                            lemma_checksum_at(cur, i);
                        } else {
                            if has_name(cur, n) {
                                let i = choose|i: int| 0 <= i < cur.len() && cur[i].name == n;
                                assert(prev[i] == cur[i]);
                            }
                        }
                    }
                } else {
                    assert forall|n: Seq<char>| checksum_of(cur, n) == #[trigger] name_after(
                        pipes,
                        ops,
                        n,
                    ) by {
                        assert(name_after(pipes, init, n) == checksum_of(prev, n));
                    }
                }
            },
            PipeOp::Delete { name } => {
                if has_name(prev, name) {
                    let pos = position_of_name(prev, name);
                    assert(prev[pos].name == name);
                    assert(cur == prev.remove(pos));
                    assert forall|i: int, j: int| 0 <= i < j < cur.len() implies cur[i].name
                        != cur[j].name by {
                        let a = if i < pos { i } else { i + 1 };
                        let b = if j < pos { j } else { j + 1 };
                        assert(cur[i] == prev[a]);
                        assert(cur[j] == prev[b]);
                    }
                    assert forall|n: Seq<char>| checksum_of(cur, n) == #[trigger] name_after(
                        pipes,
                        ops,
                        n,
                    ) by {
                        assert(name_after(pipes, init, n) == checksum_of(prev, n));
                        if has_name(cur, n) {
                            let i = choose|i: int| 0 <= i < cur.len() && cur[i].name == n;
                            let a = if i < pos { i } else { i + 1 };
                            assert(cur[i] == prev[a]);
                            assert(a != pos);
                            lemma_checksum_at(cur, i);
                            lemma_checksum_at(prev, a);
                        } else if n != name && has_name(prev, n) {
                            let a = choose|a: int| 0 <= a < prev.len() && prev[a].name == n;
                            let i = if a < pos { a } else { a - 1 };
                            assert(cur[i] == prev[a]);
                        }
                    }
                } else {
                    assert forall|n: Seq<char>| checksum_of(cur, n) == #[trigger] name_after(
                        pipes,
                        ops,
                        n,
                    ) by {
                        assert(name_after(pipes, init, n) == checksum_of(prev, n));
                    }
                }
            },
        }
    }
}

/// The same body added under two new names is stored once: the two
/// pipelines share its checksum, the first addition asks for the body to be
/// written unless it is stored already, and the second never does.
pub proof fn lemma_same_body_stored_once(
    pipes: Seq<PipelineEntry>,
    blobs: Blobs,
    a: Seq<char>,
    b: Seq<char>,
    content: Seq<char>,
    r1: Result<Option<String>, StoreError>,
    pipes1: Seq<PipelineEntry>,
    blobs1: Blobs,
    r2: Result<Option<String>, StoreError>,
    pipes2: Seq<PipelineEntry>,
    blobs2: Blobs,
)
    requires
        a != b,
        !has_name(pipes, a),
        !has_name(pipes, b),
        pipeline_added(pipes, blobs, a, sha1_hex(content), r1, pipes1, blobs1),
        pipeline_added(pipes1, blobs1, b, sha1_hex(content), r2, pipes2, blobs2),
    ensures
        pipes2 == pipes.push(PipelineEntry { name: a, checksum: sha1_hex(content) }).push(
            PipelineEntry { name: b, checksum: sha1_hex(content) },
        ),
        r1 matches Ok(Some(_)) <==> !blobs.checksums.contains(sha1_hex(content)),
        r1 is Ok,
        r2 == Ok::<Option<String>, StoreError>(None),
        blobs2 == blobs1,
        blobs1.checksums.contains(sha1_hex(content)),
        blobs1.checksums == (if blobs.checksums.contains(sha1_hex(content)) {
            blobs.checksums
        } else {
            blobs.checksums.push(sha1_hex(content))
        }),
{
    let c = sha1_hex(content);
    assert(!has_name(pipes1, b)) by {
        if has_name(pipes1, b) {
            let i = choose|i: int| 0 <= i < pipes1.len() && pipes1[i].name == b;
            if i < pipes.len() {
                assert(pipes1[i] == pipes[i]);
            }
        }
    }
    if !blobs.checksums.contains(c) {
        assert(blobs1.checksums[blobs.checksums.len() as int] == c);
    }
}

impl PipelineRecord {
    /// A copy of the record.
    pub fn copy_record(&self) -> (r: PipelineRecord)
        ensures
            r@ == self@,
    {
        PipelineRecord { name: self.name.clone(), checksum: self.checksum.clone() }
    }
}

/// Copies of these records, in the same order.
fn copy_pipelines(v: &Vec<PipelineRecord>) -> (r: Vec<PipelineRecord>)
    ensures
        pipeline_entries(r@) == pipeline_entries(v@),
{
    let mut r: Vec<PipelineRecord> = Vec::new();
    let mut i: usize = 0;
    while i < v.len()
        invariant
            i <= v@.len(),
            r@.len() == i,
            pipeline_entries(r@) =~= pipeline_entries(v@).subrange(0, i as int),
        decreases v@.len() - i,
    {
        let c = v[i].copy_record();
        let ghost before = r@;
        r.push(c);
        assert(pipeline_entries(r@) =~= pipeline_entries(v@).subrange(0, i + 1)) by {
            assert forall|k: int| 0 <= k < i + 1 implies pipeline_entries(r@)[k]
                == pipeline_entries(v@)[k] by {
                if k < i {
                    assert(r@[k] == before[k]);
                    assert(pipeline_entries(before)[k] == pipeline_entries(v@).subrange(
                        0,
                        i as int,
                    )[k]);
                } else {
                    assert(r@[k] == c);
                }
            }
        }
        i = i + 1;
    }
    assert(pipeline_entries(v@).subrange(0, v@.len() as int) =~= pipeline_entries(v@));
    r
}

impl PipelineStore {
    #[verifier::type_invariant]
    closed spec fn inv(&self) -> bool {
        distinct_names(self@)
    }

    /// An index with no pipelines.
    pub fn new() -> (r: PipelineStore)
        ensures
            r@.len() == 0,
    {
        let r = PipelineStore { pipes: Vec::new() };
        assert(r@ =~= Seq::<PipelineEntry>::empty());
        r
    }

    /// An index of the given pipelines, in this order, as read back from
    /// storage; refused where two of them share a name.
    pub fn from_records(records: Vec<PipelineRecord>) -> (r: Result<PipelineStore, StoreError>)
        ensures
            r is Ok <==> distinct_names(pipeline_entries(records@)),
            r matches Err(e) ==> e == StoreError::Inconsistent,
            r matches Ok(s) ==> s@ == pipeline_entries(records@),
    {
        let ghost all = pipeline_entries(records@);
        let n = records.len();
        let mut i: usize = 0;
        while i < n
            invariant
                n == records@.len(),
                all == pipeline_entries(records@),
                i <= n,
                forall|a: int, b: int| 0 <= a < b < n && a < i ==> all[a].name != all[b].name,
            decreases n - i,
        {
            let mut j: usize = i + 1;
            while j < n
                invariant
                    n == records@.len(),
                    all == pipeline_entries(records@),
                    i < n,
                    i < j <= n,
                    forall|a: int, b: int|
                        0 <= a < b < n && a < i ==> all[a].name != all[b].name,
                    forall|b: int| i < b < j ==> all[i as int].name != all[b].name,
                decreases n - j,
            {
                if records[i].name == records[j].name {
                    assert(all[i as int].name == all[j as int].name);
                    return Err(StoreError::Inconsistent);
                }
                j = j + 1;
            }
            i = i + 1;
        }
        Ok(PipelineStore { pipes: records })
    }

    /// The position of the pipeline called `name`, if there is one.
    fn position(&self, name: &String) -> (r: Option<usize>)
        ensures
            r is None <==> !has_name(self@, name@),
            r matches Some(i) ==> i < self@.len() && i == position_of_name(self@, name@),
    {
        proof {
            use_type_invariant(self);
        }
        let mut i: usize = 0;
        while i < self.pipes.len()
            invariant
                i <= self.pipes@.len(),
                distinct_names(self@),
                forall|j: int| 0 <= j < i ==> self@[j].name != name@,
            decreases self.pipes@.len() - i,
        {
            if self.pipes[i].name == *name {
                assert(self@[i as int].name == name@);
                let ghost p = position_of_name(self@, name@);
                assert(self@[p].name == name@);
                assert(p == i);
                return Some(i);
            }
            i = i + 1;
        }
        None
    }
}

impl BlobStore {
    /// The bodies stored in `dir`, with none known yet.
    pub fn new(dir: String) -> (r: BlobStore)
        ensures
            r@.dir == dir@,
            r@.checksums.len() == 0,
    {
        let r = BlobStore { dir, checksums: Vec::new() };
        assert(r@.checksums =~= Seq::<Seq<char>>::empty());
        r
    }

    /// The directory the bodies are stored in.
    pub fn dir(&self) -> (r: String)
        ensures
            r@ == self@.dir,
    {
        self.dir.clone()
    }

    /// Whether a body with checksum `sum` is stored.
    pub fn contains(&self, sum: &String) -> (r: bool)
        ensures
            r == self@.checksums.contains(sum@),
    {
        let mut i: usize = 0;
        while i < self.checksums.len()
            invariant
                i <= self.checksums@.len(),
                forall|j: int| 0 <= j < i ==> self@.checksums[j] != sum@,
            decreases self.checksums@.len() - i,
        {
            if self.checksums[i] == *sum {
                assert(self@.checksums[i as int] == sum@);
                return true;
            }
            i = i + 1;
        }
        false
    }

    /// Notes that a body with checksum `sum` is stored; nothing changes if
    /// one already was.
    pub fn record(&mut self, sum: String)
        ensures
            final(self)@.dir == old(self)@.dir,
            old(self)@.checksums.contains(sum@) ==> final(self)@ == old(self)@,
            !old(self)@.checksums.contains(sum@) ==> final(self)@.checksums
                == old(self)@.checksums.push(sum@),
    {
        if !self.contains(&sum) {
            let ghost before = self@;
            self.checksums.push(sum);
            assert(self@.checksums =~= before.checksums.push(sum@));
        }
    }
}

/// Adds the pipeline `name` whose body has checksum `sum`; see
/// [`pipeline_added`]. On `Ok(Some(file))` the body is to be written to
/// `file`.
pub fn add_pipeline_checksummed(
    pipes: &mut PipelineStore,
    blobs: &mut BlobStore,
    name: String,
    sum: String,
) -> (r: Result<Option<String>, StoreError>)
    ensures
        distinct_names(final(pipes)@),
        final(pipes)@ == pipe_op_applied(old(pipes)@, PipeOp::Add { name: name@, sum: sum@ }),
        pipeline_added(old(pipes)@, old(blobs)@, name@, sum@, r, final(pipes)@, final(blobs)@),
{
    proof {
        use_type_invariant(&*pipes);
    }
    if pipes.position(&name).is_some() {
        return Err(StoreError::DuplicateName(name));
    }
    let ghost before = pipes@;
    let entry = PipelineRecord { name, checksum: sum.clone() };
    let mut records = copy_pipelines(&pipes.pipes);
    records.push(entry);
    assert(pipeline_entries(records@) =~= before.push(entry@));
    *pipes = PipelineStore { pipes: records };
    if blobs.contains(&sum) {
        Ok(None)
    } else {
        let file = crate::paths::join_path(blobs.dir.as_str(), sum.as_str());
        blobs.record(sum);
        Ok(Some(file))
    }
}

/// Adds the pipeline `name` with script body `contents`, stored under its
/// checksum; see [`pipeline_added`]. On `Ok(Some(file))` the body is to be
/// written to `file`; on `Ok(None)` an identical body is stored already.
pub fn add_pipeline(
    pipes: &mut PipelineStore,
    blobs: &mut BlobStore,
    name: String,
    contents: String,
) -> (r: Result<Option<String>, StoreError>)
    ensures
        distinct_names(final(pipes)@),
        final(pipes)@ == pipe_op_applied(
            old(pipes)@,
            PipeOp::Add { name: name@, sum: sha1_hex(contents@) },
        ),
        pipeline_added(
            old(pipes)@,
            old(blobs)@,
            name@,
            sha1_hex(contents@),
            r,
            final(pipes)@,
            final(blobs)@,
        ),
{
    let sum = checksum(contents.as_str());
    add_pipeline_checksummed(pipes, blobs, name, sum)
}

/// Removes the pipeline `name`. Its body stays stored, and paths that name
/// it keep doing so. A name that no pipeline has is refused and the index is
/// left as it was.
pub fn delete_pipeline(pipes: &mut PipelineStore, name: &String) -> (r: Result<(), StoreError>)
    ensures
        distinct_names(final(pipes)@),
        final(pipes)@ == pipe_op_applied(old(pipes)@, PipeOp::Delete { name: name@ }),
        !has_name(old(pipes)@, name@) ==> (r matches Err(StoreError::PipelineNotFound(n)) && n@
            == name@ && final(pipes)@ == old(pipes)@),
        has_name(old(pipes)@, name@) ==> r is Ok && final(pipes)@ == old(pipes)@.remove(
            position_of_name(old(pipes)@, name@),
        ),
        forall|e: PipelineEntry|
            final(pipes)@.contains(e) <==> old(pipes)@.contains(e) && e.name != name@,
{
    proof {
        use_type_invariant(&*pipes);
    }
    match pipes.position(name) {
        None => Err(StoreError::PipelineNotFound(name.clone())),
        Some(pos) => {
            let ghost before = pipes@;
            let mut records = copy_pipelines(&pipes.pipes);
            records.remove(pos);
            proof {
                let after = before.remove(pos as int);
                assert(pipeline_entries(records@) =~= after);
                assert forall|e: PipelineEntry| after.contains(e) <==> before.contains(e) && e.name
                    != name@ by {
                    if after.contains(e) {
                        let k = choose|k: int| 0 <= k < after.len() && after[k] == e;
                        if k < pos {
                            assert(before[k] == e);
                        } else {
                            assert(before[k + 1] == e);
                        }
                    }
                    if before.contains(e) && e.name != name@ {
                        let k = choose|k: int| 0 <= k < before.len() && before[k] == e;
                        if k < pos {
                            assert(after[k] == e);
                        } else {
                            assert(k != pos);
                            assert(after[k - 1] == e);
                        }
                    }
                }
            }
            *pipes = PipelineStore { pipes: records };
            Ok(())
        },
    }
}

/// Every pipeline, in the order they were added.
pub fn list_pipelines(pipes: &PipelineStore) -> (r: Vec<PipelineRecord>)
    ensures
        pipeline_entries(r@) == pipes@,
{
    copy_pipelines(&pipes.pipes)
}

/// The pipeline called `name`, if there is one. An unknown name is no
/// error: the caller skips it with a warning.
pub fn fetch_pipeline(pipes: &PipelineStore, name: &String) -> (r: Option<PipelineRecord>)
    ensures
        r is None <==> checksum_of(pipes@, name@) is None,
        r matches Some(p) ==> p@.name == name@ && checksum_of(pipes@, name@) == Some(p@.checksum),
{
    match pipes.position(name) {
        None => None,
        Some(i) => {
            let p = pipes.pipes[i].copy_record();
            assert(pipes@[i as int] == p@);
            Some(p)
        },
    }
}

} // verus!
