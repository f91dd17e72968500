//! From a changed path to the scripts that run for it.
use vstd::prelude::*;
use vstd::string::StringExecFns;
use crate::content::{
    Blobs,
    BlobStore,
    PipeOp,
    PipelineEntry,
    PipelineStore,
    checksum_of,
    distinct_names,
    fetch_pipeline,
    lemma_pipe_ops_survivors,
    name_after,
    pipe_op_applied,
    pipe_ops_applied,
};
use crate::paths::{child_path, join_path};
use crate::store::{FilesStore, get_path};

verus! {

/// Why a pipeline named by a path cannot run. Either way the other
/// pipelines of the path still run.
#[derive(Debug, PartialEq, Eq)]
pub enum ResolveError {
    /// No pipeline has this name; it may have been deleted.
    UnknownPipeline(String),
    /// The pipeline (first) names a checksum (second) whose body is not
    /// stored.
    MissingBlob(String, String),
}

/// A script to start: the pipeline it runs, the interpreter, the script
/// file the interpreter is handed, and the variables set on top of the
/// environment.
#[derive(Debug)]
pub struct Launch {
    pub pipeline: String,
    pub interpreter: String,
    pub script: String,
    pub env: Vec<(String, String)>,
}

/// The value of a [`Launch`].
pub ghost struct LaunchPlan {
    pub pipeline: Seq<char>,
    pub interpreter: Seq<char>,
    pub script: Seq<char>,
    pub env: Seq<(Seq<char>, Seq<char>)>,
}

impl View for Launch {
    type V = LaunchPlan;

    open spec fn view(&self) -> LaunchPlan {
        LaunchPlan {
            pipeline: self.pipeline@,
            interpreter: self.interpreter@,
            script: self.script@,
            env: self.env@.map_values(|kv: (String, String)| (kv.0@, kv.1@)),
        }
    }
}

/// The variables a pipeline runs with: the changed path under `SUP_SRC`.
pub open spec fn env_for(source: Seq<char>) -> Seq<(Seq<char>, Seq<char>)> {
    seq![("SUP_SRC"@, source)]
}

/// How the pipeline `name`, whose body has checksum `sum` and is stored in
/// `dir`, is started for a change of `source`.
pub open spec fn launch_of(
    name: Seq<char>,
    dir: Seq<char>,
    sum: Seq<char>,
    source: Seq<char>,
) -> LaunchPlan {
    LaunchPlan {
        pipeline: name,
        interpreter: "bash"@,
        script: child_path(dir, sum),
        env: env_for(source),
    }
}

/// What running the pipeline `name` for a change of `source` comes to: an
/// unknown name, a body that is not stored, or the launch of the body.
pub open spec fn resolves_to(
    pipes: Seq<PipelineEntry>,
    blobs: Blobs,
    name: Seq<char>,
    source: Seq<char>,
    r: Result<Launch, ResolveError>,
) -> bool {
    match checksum_of(pipes, name) {
        None => r matches Err(ResolveError::UnknownPipeline(n)) && n@ == name,
        Some(sum) => if blobs.checksums.contains(sum) {
            r matches Ok(l) && l@ == launch_of(name, blobs.dir, sum, source)
        } else {
            r matches Err(ResolveError::MissingBlob(n, s)) && n@ == name && s@ == sum
        },
    }
}

/// Deleting a pipeline leaves the paths that name it as they are; a later
/// change of such a path resolves the name as unknown instead of running it.
pub proof fn lemma_deleted_pipeline_unknown(
    pipes: Seq<PipelineEntry>,
    blobs: Blobs,
    name: Seq<char>,
    source: Seq<char>,
    r: Result<Launch, ResolveError>,
)
    requires
        distinct_names(pipes),
        resolves_to(pipe_op_applied(pipes, PipeOp::Delete { name }), blobs, name, source, r),
    ensures
        r matches Err(ResolveError::UnknownPipeline(n)) && n@ == name,
{
    let ops = seq![PipeOp::Delete { name }];
    lemma_pipe_ops_survivors(pipes, ops);
    assert(ops.drop_last() =~= Seq::<PipeOp>::empty());
    assert(pipe_ops_applied(pipes, ops.drop_last()) == pipes);
    assert(name_after(pipes, ops.drop_last(), name) == checksum_of(pipes, name));
    assert(ops.last() == PipeOp::Delete { name });
    assert(pipe_ops_applied(pipes, ops) == pipe_op_applied(pipes, PipeOp::Delete { name }));
    assert(name_after(pipes, ops, name) is None);
}

/// The variables a pipeline runs with for a change of `source`.
pub fn pipeline_env(source: &String) -> (r: Vec<(String, String)>)
    ensures
        r@.map_values(|kv: (String, String)| (kv.0@, kv.1@)) == env_for(source@),
{
    let key = String::from_str("SUP_SRC");
    let mut r: Vec<(String, String)> = Vec::new();
    r.push((key, source.clone()));
    assert(r@.map_values(|kv: (String, String)| (kv.0@, kv.1@)) =~= env_for(source@));
    r
}

/// Resolves the pipeline `name` to the script to start for a change of
/// `source`; see [`resolves_to`].
pub fn run_pipeline(pipes: &PipelineStore, blobs: &BlobStore, name: &String, source: &String) -> (r:
    Result<Launch, ResolveError>)
    ensures
        resolves_to(pipes@, blobs@, name@, source@, r),
{
    match fetch_pipeline(pipes, name) {
        None => Err(ResolveError::UnknownPipeline(name.clone())),
        Some(record) => {
            if !blobs.contains(&record.checksum) {
                return Err(ResolveError::MissingBlob(name.clone(), record.checksum));
            }
            let dir = blobs.dir();
            let script = join_path(dir.as_str(), record.checksum.as_str());
            let interpreter = String::from_str("bash");
            let env = pipeline_env(source);
            Ok(Launch { pipeline: name.clone(), interpreter, script, env })
        },
    }
}

/// Everything that a change of `path` runs: `None` where the path is not
/// registered; otherwise, for each pipeline the path names, in the order it
/// names them, how that pipeline resolves.
pub fn run_path(files: &FilesStore, pipes: &PipelineStore, blobs: &BlobStore, path: &String) -> (r:
    Option<Vec<Result<Launch, ResolveError>>>)
    ensures
        r is None <==> !files@.has_path(path@),
        r matches Some(runs) ==> runs@.len() == files@.record_for(path@).pipes.len() && forall|
            i: int,
        |
            0 <= i < runs@.len() ==> resolves_to(
                pipes@,
                blobs@,
                files@.record_for(path@).pipes[i],
                path@,
                #[trigger] runs@[i],
            ),
{
    let record = match get_path(files, path) {
        None => return None,
        Some(r) => r,
    };
    let mut runs: Vec<Result<Launch, ResolveError>> = Vec::new();
    let mut i: usize = 0;
    while i < record.pipes.len()
        invariant
            i <= record.pipes@.len(),
            runs@.len() == i,
            record@ == files@.record_for(path@),
            record.path@ == path@,
            forall|k: int|
                0 <= k < i ==> resolves_to(
                    pipes@,
                    blobs@,
                    record@.pipes[k],
                    path@,
                    #[trigger] runs@[k],
                ),
        decreases record.pipes@.len() - i,
    {
        let outcome = run_pipeline(pipes, blobs, &record.pipes[i], &record.path);
        runs.push(outcome);
        i = i + 1;
    }
    Some(runs)
}

} // verus!
