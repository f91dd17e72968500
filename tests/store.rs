use super_pipe::store::{
    add_path, delete_path, get_path, highest_id, init, list_paths, FileRecord, FilesStore,
    StoreError,
};

fn names(v: &[&str]) -> Vec<String> {
    v.iter().map(|s| s.to_string()).collect()
}

#[test]
fn init_starts_empty() {
    let (files, pipes) = init();
    assert_eq!(list_paths(&files).len(), 0);
    assert_eq!(files.last_id(), 0);
    assert_eq!(super_pipe::content::list_pipelines(&pipes).len(), 0);
}

#[test]
fn ids_start_at_one_and_increase() {
    let mut files = FilesStore::new();
    let a = add_path(&mut files, "/tmp/a".to_string(), names(&["p"])).unwrap();
    let b = add_path(&mut files, "/tmp/b".to_string(), names(&["q", "r"])).unwrap();
    assert_eq!(a.id, 1);
    assert_eq!(b.id, 2);
    assert_eq!(b.pipes, names(&["q", "r"]));
    let listed = list_paths(&files);
    assert_eq!(listed.len(), 2);
    assert_eq!(listed[0].path, "/tmp/a");
    assert_eq!(listed[1].path, "/tmp/b");
}

#[test]
fn duplicate_path_is_refused() {
    let mut files = FilesStore::new();
    add_path(&mut files, "/tmp/a".to_string(), names(&["p"])).unwrap();
    let err = add_path(&mut files, "/tmp/a".to_string(), names(&["q"])).unwrap_err();
    assert_eq!(err, StoreError::DuplicatePath("/tmp/a".to_string()));
    assert_eq!(list_paths(&files).len(), 1);
    assert_eq!(list_paths(&files)[0].pipes, names(&["p"]));
}

#[test]
fn deleting_an_unknown_id_is_reported() {
    let mut files = FilesStore::new();
    add_path(&mut files, "/tmp/a".to_string(), names(&["p"])).unwrap();
    assert_eq!(delete_path(&mut files, 7), Err(StoreError::PathNotFound(7)));
    assert_eq!(delete_path(&mut files, 1), Ok(()));
    assert_eq!(delete_path(&mut files, 1), Err(StoreError::PathNotFound(1)));
    assert_eq!(list_paths(&files).len(), 0);
}

#[test]
fn ids_are_not_reused_after_deletion() {
    let mut files = FilesStore::new();
    add_path(&mut files, "/tmp/a".to_string(), vec![]).unwrap();
    add_path(&mut files, "/tmp/b".to_string(), vec![]).unwrap();
    delete_path(&mut files, 2).unwrap();
    let c = add_path(&mut files, "/tmp/c".to_string(), vec![]).unwrap();
    assert_eq!(c.id, 3);
    let ids: Vec<u32> = list_paths(&files).iter().map(|f| f.id).collect();
    assert_eq!(ids, vec![1, 3]);
}

#[test]
fn survivors_after_adds_and_deletes() {
    let mut files = FilesStore::new();
    for p in ["/a", "/b", "/c", "/d"] {
        add_path(&mut files, p.to_string(), names(&["x"])).unwrap();
    }
    delete_path(&mut files, 2).unwrap();
    delete_path(&mut files, 4).unwrap();
    add_path(&mut files, "/b".to_string(), names(&["y"])).unwrap();
    let listed = list_paths(&files);
    let got: Vec<(u32, String)> = listed.iter().map(|f| (f.id, f.path.clone())).collect();
    assert_eq!(
        got,
        vec![(1, "/a".to_string()), (3, "/c".to_string()), (5, "/b".to_string())]
    );
}

#[test]
fn find_by_exact_path() {
    let mut files = FilesStore::new();
    add_path(&mut files, "/tmp/a".to_string(), names(&["p"])).unwrap();
    let found = get_path(&files, &"/tmp/a".to_string()).unwrap();
    assert_eq!(found.id, 1);
    assert_eq!(found.pipes, names(&["p"]));
    assert!(get_path(&files, &"/tmp/a/".to_string()).is_none());
    assert!(get_path(&files, &"/tmp".to_string()).is_none());
}

#[test]
fn pipeline_names_are_not_checked_when_adding_a_path() {
    let mut files = FilesStore::new();
    let r = add_path(&mut files, "/tmp/f".to_string(), names(&["missing"])).unwrap();
    assert_eq!(r.pipes, names(&["missing"]));
}

fn record(id: u32, path: &str) -> FileRecord {
    FileRecord { id, path: path.to_string(), pipes: vec![] }
}

#[test]
fn loaded_records_keep_their_ids() {
    let recs = vec![record(4, "/a"), record(9, "/b"), record(2, "/c")];
    assert_eq!(highest_id(&recs), 9);
    let mut files = FilesStore::from_records(recs, 0).unwrap();
    assert_eq!(files.last_id(), 9);
    let r = add_path(&mut files, "/d".to_string(), vec![]).unwrap();
    assert_eq!(r.id, 10);
}

#[test]
fn loaded_high_water_mark_wins_over_lower_ids() {
    let files = FilesStore::from_records(vec![record(4, "/a")], 12).unwrap();
    assert_eq!(files.last_id(), 12);
    assert_eq!(highest_id(&vec![]), 0);
}

#[test]
fn loaded_duplicates_are_refused() {
    let same_id = vec![record(1, "/a"), record(1, "/b")];
    assert!(matches!(FilesStore::from_records(same_id, 0), Err(StoreError::Inconsistent)));
    let same_path = vec![record(1, "/a"), record(2, "/a")];
    assert!(matches!(FilesStore::from_records(same_path, 0), Err(StoreError::Inconsistent)));
}

#[test]
fn ids_run_out_at_the_top() {
    let mut files = FilesStore::from_records(vec![record(u32::MAX, "/a")], 0).unwrap();
    let err = add_path(&mut files, "/b".to_string(), vec![]).unwrap_err();
    assert_eq!(err, StoreError::IdsExhausted);
    assert_eq!(list_paths(&files).len(), 1);
}

#[test]
fn find_by_id() {
    let mut files = FilesStore::new();
    add_path(&mut files, "/tmp/a".to_string(), names(&["p"])).unwrap();
    add_path(&mut files, "/tmp/b".to_string(), names(&["q"])).unwrap();
    assert_eq!(super_pipe::store::get_path_by_id(&files, 2).unwrap().path, "/tmp/b");
    assert!(super_pipe::store::get_path_by_id(&files, 3).is_none());
}

#[test]
fn an_empty_index_file_holds_no_records() {
    assert!(super_pipe::store::is_empty_index(""));
    assert!(!super_pipe::store::is_empty_index("files = []"));
}
