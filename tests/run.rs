use super_pipe::content::{add_pipeline, delete_pipeline, BlobStore, PipelineStore};
use super_pipe::run::{pipeline_env, run_path, run_pipeline, Launch, ResolveError};
use super_pipe::store::{add_path, list_paths, FilesStore};

const ECHO_HI_SHA1: &str = "ec8fd4edd266ade6406b7552dd7308c86f43a204";

fn names(v: &[&str]) -> Vec<String> {
    v.iter().map(|s| s.to_string()).collect()
}

fn launch(r: &Result<Launch, ResolveError>) -> &Launch {
    match r {
        Ok(l) => l,
        Err(e) => panic!("expected a launch, got {:?}", e),
    }
}

#[test]
fn env_carries_the_changed_path() {
    let env = pipeline_env(&"/tmp/x".to_string());
    assert_eq!(env, vec![("SUP_SRC".to_string(), "/tmp/x".to_string())]);
}

#[test]
fn end_to_end_write_runs_the_stored_script() {
    let mut pipes = PipelineStore::new();
    let mut blobs = BlobStore::new("/c/pipes".to_string());
    let mut files = FilesStore::new();
    add_pipeline(&mut pipes, &mut blobs, "echo".to_string(), "echo hi".to_string()).unwrap();
    add_path(&mut files, "/tmp/watchme".to_string(), names(&["echo"])).unwrap();
    let runs = run_path(&files, &pipes, &blobs, &"/tmp/watchme".to_string()).unwrap();
    assert_eq!(runs.len(), 1);
    let l = launch(&runs[0]);
    assert_eq!(l.pipeline, "echo");
    assert_eq!(l.interpreter, "bash");
    assert_eq!(l.script, format!("/c/pipes/{}", ECHO_HI_SHA1));
    assert_eq!(l.env, vec![("SUP_SRC".to_string(), "/tmp/watchme".to_string())]);
}

#[test]
fn deleting_a_pipeline_does_not_cascade() {
    let mut pipes = PipelineStore::new();
    let mut blobs = BlobStore::new("/c/pipes".to_string());
    let mut files = FilesStore::new();
    add_pipeline(&mut pipes, &mut blobs, "echo".to_string(), "echo hi".to_string()).unwrap();
    add_path(&mut files, "/tmp/watchme".to_string(), names(&["echo"])).unwrap();
    delete_pipeline(&mut pipes, &"echo".to_string()).unwrap();
    let listed = list_paths(&files);
    assert_eq!(listed.len(), 1);
    assert_eq!(listed[0].path, "/tmp/watchme");
    assert_eq!(listed[0].pipes, names(&["echo"]));
    let runs = run_path(&files, &pipes, &blobs, &"/tmp/watchme".to_string()).unwrap();
    assert_eq!(runs.len(), 1);
    assert!(matches!(&runs[0], Err(ResolveError::UnknownPipeline(n)) if n == "echo"));
}

#[test]
fn dangling_pipeline_name_is_a_warning_not_a_failure() {
    let pipes = PipelineStore::new();
    let blobs = BlobStore::new("/c/pipes".to_string());
    let mut files = FilesStore::new();
    add_path(&mut files, "/tmp/f".to_string(), names(&["missing"])).unwrap();
    let runs = run_path(&files, &pipes, &blobs, &"/tmp/f".to_string()).unwrap();
    assert_eq!(runs.len(), 1);
    assert!(matches!(&runs[0], Err(ResolveError::UnknownPipeline(n)) if n == "missing"));
    // A second dispatch goes through the same way.
    let again = run_path(&files, &pipes, &blobs, &"/tmp/f".to_string()).unwrap();
    assert_eq!(again.len(), 1);
}

#[test]
fn pipelines_run_in_registration_order() {
    let mut pipes = PipelineStore::new();
    let mut blobs = BlobStore::new("/c".to_string());
    let mut files = FilesStore::new();
    for (n, body) in [("p1", "one"), ("p2", "two"), ("p3", "three")] {
        add_pipeline(&mut pipes, &mut blobs, n.to_string(), body.to_string()).unwrap();
    }
    add_path(&mut files, "/tmp/o".to_string(), names(&["p3", "p1", "p2"])).unwrap();
    let runs = run_path(&files, &pipes, &blobs, &"/tmp/o".to_string()).unwrap();
    let order: Vec<String> = runs.iter().map(|r| launch(r).pipeline.clone()).collect();
    assert_eq!(order, names(&["p3", "p1", "p2"]));
    let scripts: Vec<String> = runs.iter().map(|r| launch(r).script.clone()).collect();
    let expect = |n: &str| {
        let p = super_pipe::content::fetch_pipeline(&pipes, &n.to_string()).unwrap();
        format!("/c/{}", p.checksum)
    };
    assert_eq!(scripts, vec![expect("p3"), expect("p1"), expect("p2")]);
}

#[test]
fn one_bad_pipeline_does_not_stop_its_siblings() {
    let mut pipes = PipelineStore::new();
    let mut blobs = BlobStore::new("/c".to_string());
    let mut files = FilesStore::new();
    add_pipeline(&mut pipes, &mut blobs, "p1".to_string(), "one".to_string()).unwrap();
    add_pipeline(&mut pipes, &mut blobs, "p3".to_string(), "three".to_string()).unwrap();
    add_path(&mut files, "/tmp/o".to_string(), names(&["p1", "p2", "p3"])).unwrap();
    let runs = run_path(&files, &pipes, &blobs, &"/tmp/o".to_string()).unwrap();
    assert_eq!(runs.len(), 3);
    assert!(runs[0].is_ok());
    assert!(matches!(&runs[1], Err(ResolveError::UnknownPipeline(n)) if n == "p2"));
    assert!(runs[2].is_ok());
}

#[test]
fn unregistered_path_runs_nothing() {
    let pipes = PipelineStore::new();
    let blobs = BlobStore::new("/c".to_string());
    let files = FilesStore::new();
    assert!(run_path(&files, &pipes, &blobs, &"/tmp/none".to_string()).is_none());
}

#[test]
fn missing_body_is_reported_with_its_checksum() {
    let mut pipes = PipelineStore::new();
    let mut blobs = BlobStore::new("/c/pipes".to_string());
    add_pipeline(&mut pipes, &mut blobs, "echo".to_string(), "echo hi".to_string()).unwrap();
    // The same index against a blob directory that lost the body.
    let empty = BlobStore::new("/c/pipes".to_string());
    let r = run_pipeline(&pipes, &empty, &"echo".to_string(), &"/tmp/x".to_string());
    assert_eq!(
        r.unwrap_err(),
        ResolveError::MissingBlob("echo".to_string(), ECHO_HI_SHA1.to_string())
    );
    let ok = run_pipeline(&pipes, &blobs, &"echo".to_string(), &"/tmp/x".to_string());
    assert_eq!(launch(&ok).script, format!("/c/pipes/{}", ECHO_HI_SHA1));
}
