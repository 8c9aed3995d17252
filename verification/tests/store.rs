use docstore::store::{StoreError, UpdateLogStore};

#[test]
fn read_all_of_untouched_document_is_empty_ok() {
    let store = UpdateLogStore::new();
    let id = String::from("doc-absent");
    let got = store.read_all(&id);
    assert_eq!(got, Ok(Vec::new()));
}

#[test]
fn read_all_returns_writes_in_submission_order() {
    let mut store = UpdateLogStore::new();
    let id = String::from("doc-1");
    let w1: Vec<u8> = vec![1, 2, 3];
    let w2: Vec<u8> = vec![4];
    let w3: Vec<u8> = vec![];
    assert!(store.write(&id, w1.clone()).is_ok());
    assert!(store.write(&id, w2.clone()).is_ok());
    assert!(store.write(&id, w3.clone()).is_ok());
    let got = store.read_all(&id).unwrap();
    assert_eq!(got, vec![w1, w2, w3]);
}

#[test]
fn write_same_blob_twice_appends_two_fragments() {
    let mut store = UpdateLogStore::new();
    let id = String::from("doc-1");
    let blob: Vec<u8> = vec![9, 9, 9];
    assert!(store.write(&id, blob.clone()).is_ok());
    assert!(store.write(&id, blob.clone()).is_ok());
    let got = store.read_all(&id).unwrap();
    assert_eq!(got.len(), 2);
    assert_eq!(got, vec![blob.clone(), blob]);
}

#[test]
fn writes_to_one_document_leave_others_alone() {
    let mut store = UpdateLogStore::new();
    let a = String::from("doc-a");
    let b = String::from("doc-b");
    assert!(store.write(&a, vec![1]).is_ok());
    assert!(store.write(&b, vec![2]).is_ok());
    assert!(store.write(&a, vec![3]).is_ok());
    assert_eq!(store.read_all(&a).unwrap(), vec![vec![1], vec![3]]);
    assert_eq!(store.read_all(&b).unwrap(), vec![vec![2]]);
}

#[test]
fn replace_appends_like_write() {
    let mut store = UpdateLogStore::new();
    let id = String::from("doc-1");
    assert!(store.write(&id, vec![1]).is_ok());
    assert!(store.replace(&id, vec![2]).is_ok());
    assert_eq!(store.read_all(&id).unwrap(), vec![vec![1], vec![2]]);
}

#[test]
fn unreachable_store_fails_every_operation() {
    let mut store = UpdateLogStore::new_unavailable();
    let id = String::from("doc-1");
    assert_eq!(store.write(&id, vec![1]), Err(StoreError::Io));
    assert_eq!(store.replace(&id, vec![1]), Err(StoreError::Io));
    assert_eq!(store.read_all(&id), Err(StoreError::NotFound));
}

#[test]
fn store_error_messages() {
    assert_eq!(
        StoreError::Io.message(),
        String::from("update log store failed to persist")
    );
    assert_eq!(
        StoreError::NotFound.message(),
        String::from("update log store is unreachable")
    );
}
