use super_pipe::content::{
    add_pipeline, add_pipeline_checksummed, delete_pipeline, fetch_pipeline, list_pipelines,
    BlobStore, PipelineRecord, PipelineStore,
};
use super_pipe::store::StoreError;

const ECHO_HI_SHA1: &str = "ec8fd4edd266ade6406b7552dd7308c86f43a204";

#[test]
fn checksum_is_the_sha1_of_the_body() {
    let mut pipes = PipelineStore::new();
    let mut blobs = BlobStore::new("/c/pipes".to_string());
    let file = add_pipeline(&mut pipes, &mut blobs, "echo".to_string(), "echo hi".to_string())
        .unwrap();
    assert_eq!(file, Some(format!("/c/pipes/{}", ECHO_HI_SHA1)));
    let listed = list_pipelines(&pipes);
    assert_eq!(listed.len(), 1);
    assert_eq!(listed[0].name, "echo");
    assert_eq!(listed[0].checksum, ECHO_HI_SHA1);
    assert!(blobs.contains(&ECHO_HI_SHA1.to_string()));
}

#[test]
fn same_body_under_two_names_is_stored_once() {
    let mut pipes = PipelineStore::new();
    let mut blobs = BlobStore::new("/c/pipes".to_string());
    let first = add_pipeline(&mut pipes, &mut blobs, "a".to_string(), "X".to_string()).unwrap();
    let second = add_pipeline(&mut pipes, &mut blobs, "b".to_string(), "X".to_string()).unwrap();
    assert_eq!(first, Some("/c/pipes/c032adc1ff629c9b66f22749ad667e6beadf144b".to_string()));
    assert_eq!(second, None);
    let listed = list_pipelines(&pipes);
    assert_eq!(listed.len(), 2);
    assert_eq!(listed[0].name, "a");
    assert_eq!(listed[1].name, "b");
    assert_eq!(listed[0].checksum, listed[1].checksum);
}

#[test]
fn body_already_on_disk_is_not_written_again() {
    let mut pipes = PipelineStore::new();
    let mut blobs = BlobStore::new("/c/pipes".to_string());
    blobs.record(ECHO_HI_SHA1.to_string());
    let r = add_pipeline(&mut pipes, &mut blobs, "echo".to_string(), "echo hi".to_string());
    assert_eq!(r, Ok(None));
}

#[test]
fn duplicate_pipeline_name_is_refused() {
    let mut pipes = PipelineStore::new();
    let mut blobs = BlobStore::new("/c/pipes".to_string());
    add_pipeline(&mut pipes, &mut blobs, "a".to_string(), "one".to_string()).unwrap();
    let r = add_pipeline(&mut pipes, &mut blobs, "a".to_string(), "two".to_string());
    assert_eq!(r, Err(StoreError::DuplicateName("a".to_string())));
    assert_eq!(list_pipelines(&pipes).len(), 1);
}

#[test]
fn delete_pipeline_keeps_the_body() {
    let mut pipes = PipelineStore::new();
    let mut blobs = BlobStore::new("/c/pipes".to_string());
    add_pipeline(&mut pipes, &mut blobs, "a".to_string(), "echo hi".to_string()).unwrap();
    assert_eq!(delete_pipeline(&mut pipes, &"a".to_string()), Ok(()));
    assert_eq!(list_pipelines(&pipes).len(), 0);
    assert!(blobs.contains(&ECHO_HI_SHA1.to_string()));
    assert_eq!(
        delete_pipeline(&mut pipes, &"a".to_string()),
        Err(StoreError::PipelineNotFound("a".to_string()))
    );
    let again = add_pipeline(&mut pipes, &mut blobs, "a".to_string(), "echo hi".to_string());
    assert_eq!(again, Ok(None));
}

#[test]
fn survivors_after_pipeline_adds_and_deletes() {
    let mut pipes = PipelineStore::new();
    let mut blobs = BlobStore::new("/c".to_string());
    for (n, s) in [("a", "1"), ("b", "2"), ("c", "3")] {
        add_pipeline_checksummed(&mut pipes, &mut blobs, n.to_string(), s.to_string()).unwrap();
    }
    delete_pipeline(&mut pipes, &"b".to_string()).unwrap();
    add_pipeline_checksummed(&mut pipes, &mut blobs, "b".to_string(), "4".to_string()).unwrap();
    let got: Vec<(String, String)> =
        list_pipelines(&pipes).into_iter().map(|p| (p.name, p.checksum)).collect();
    let want: Vec<(String, String)> = [("a", "1"), ("c", "3"), ("b", "4")]
        .iter()
        .map(|(n, s)| (n.to_string(), s.to_string()))
        .collect();
    assert_eq!(got, want);
}

#[test]
fn fetch_pipeline_by_name() {
    let mut pipes = PipelineStore::new();
    let mut blobs = BlobStore::new("/c".to_string());
    add_pipeline_checksummed(&mut pipes, &mut blobs, "a".to_string(), "sum".to_string()).unwrap();
    let p = fetch_pipeline(&pipes, &"a".to_string()).unwrap();
    assert_eq!(p.checksum, "sum");
    assert!(fetch_pipeline(&pipes, &"b".to_string()).is_none());
}

#[test]
fn loaded_pipelines_with_a_shared_name_are_refused() {
    let rec = |n: &str| PipelineRecord { name: n.to_string(), checksum: "s".to_string() };
    assert!(PipelineStore::from_records(vec![rec("a"), rec("b")]).is_ok());
    assert!(matches!(
        PipelineStore::from_records(vec![rec("a"), rec("a")]),
        Err(StoreError::Inconsistent)
    ));
}
