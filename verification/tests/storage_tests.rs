use datamint::storage::Storage;
use datamint::types::{Error, MintRequest, MintStatus};
use datamint::Principal;

fn bytes(n: u8, len: usize) -> Vec<u8> {
    vec![n; len]
}

#[test]
fn idempotent_ingestion() {
    let mut storage = Storage::new();
    let b = b"the same bytes both times".to_vec();

    let first = storage.ingest(b.clone(), "application/json", 1).unwrap();
    let second = storage.ingest(b.clone(), "application/json", 2).unwrap();
    assert_eq!(first, second);

    // The listing holds exactly one entry for the content.
    let infos = storage.list_uploaded_data();
    assert_eq!(infos.len(), 1);
    assert_eq!(infos[0].id, first);
    assert_eq!(infos[0].size, b.len() as u64);
    assert_eq!(infos[0].timestamp, 1);
}

#[test]
fn empty_content_is_refused() {
    let mut storage = Storage::new();
    assert_eq!(storage.ingest(Vec::new(), "application/json", 1), Err(Error::Validation));
    assert_eq!(storage.get_storage_stats().total_uploads, 0);
}

#[test]
fn batch_upload_keeps_order_and_dedups() {
    let mut storage = Storage::new();
    let a = bytes(1, 20);
    let b = bytes(2, 30);
    let ids = storage
        .store_upload_data(vec![a.clone(), b.clone(), a.clone()], "application/json", 5)
        .unwrap();
    assert_eq!(ids.len(), 3);
    assert_eq!(ids[0], ids[2]);
    assert_ne!(ids[0], ids[1]);
    assert_eq!(storage.list_uploaded_data().len(), 2);
}

#[test]
fn check_data_status_reports_existence() {
    let mut storage = Storage::new();
    let a = bytes(3, 25);
    let b = bytes(4, 25);
    let id = storage.ingest(a.clone(), "text/csv", 1).unwrap();
    assert_eq!(storage.check_data_exists(&a), Some(id));
    assert_eq!(storage.check_data_exists(&b), None);
    assert!(!storage.check_data_minted(&a));

    let statuses = storage.check_multiple_data_status(&vec![a.clone(), b.clone()]);
    assert_eq!(statuses, vec![(Some(id), false), (None, false)]);
}

#[test]
fn delete_frees_content_but_not_ids() {
    let mut storage = Storage::new();
    let a = bytes(5, 40);
    let id = storage.ingest(a.clone(), "application/json", 1).unwrap();
    assert!(storage.data_id_exists(id));
    storage.delete_uploaded_data(id).unwrap();
    assert!(!storage.data_id_exists(id));
    assert_eq!(storage.delete_uploaded_data(id), Err(Error::NotFound));
    assert_eq!(storage.get_uploaded_data(id), None);

    // The same content stored again gets a fresh id: ids are never reused.
    let id2 = storage.ingest(a, "application/json", 2).unwrap();
    assert_ne!(id, id2);
}

#[test]
fn get_uploaded_data_round_trip() {
    let mut storage = Storage::new();
    let a = b"some recognizable content".to_vec();
    let id = storage.ingest(a.clone(), "application/json", 1).unwrap();
    assert_eq!(storage.get_uploaded_data(id), Some(a));
    let info = storage.get_uploaded_data_info(id).unwrap();
    assert_eq!(info.mime_type, "application/json");
    assert_eq!(info.size, 25);
    let infos = storage.get_multiple_data_info(&vec![id, 999]);
    assert_eq!(infos.len(), 1);
    assert!(storage.validate_data_ids_exist(&vec![id]).is_ok());
    assert_eq!(storage.validate_data_ids_exist(&vec![id, 999]), Err(Error::NotFound));
}

#[test]
fn stats_count_by_status() {
    let mut storage = Storage::new();
    let caller = Principal::from_bytes(vec![9]);
    let mut cid = String::from("Qm");
    for _ in 0..44 {
        cid.push('c');
    }
    storage.ingest(bytes(6, 100), "application/json", 1).unwrap();
    storage.ingest(bytes(7, 50), "application/json", 1).unwrap();

    let mk = |n: u8| MintRequest { owner: None, cid: cid.clone(), metadata: vec![bytes(n, 15)] };
    let id1 = storage.request_mint(mk(8), &caller, 1).request_id;
    let id2 = storage.request_mint(mk(9), &caller, 2).request_id;
    let _id3 = storage.request_mint(mk(10), &caller, 3).request_id;
    storage.dispatch_tick().unwrap();
    storage.update_mint_status(id1, MintStatus::Completed(1)).unwrap();
    storage.dispatch_tick().unwrap();
    storage.update_mint_status(id2, MintStatus::Failed("no".to_string())).unwrap();

    let stats = storage.get_storage_stats();
    assert_eq!(stats.total_uploads, 2);
    assert_eq!(stats.total_mint_requests, 3);
    assert_eq!(stats.pending_mints, 1);
    assert_eq!(stats.completed_mints, 1);
    assert_eq!(stats.failed_mints, 1);
    assert_eq!(stats.storage_size, 150);
}

#[test]
fn principal_round_trip() {
    let p = Principal::from_bytes(vec![1, 2, 3]);
    assert_eq!(p.to_bytes(), vec![1, 2, 3]);
    assert!(!p.is_anonymous());
    assert!(Principal::anonymous().is_anonymous());
    assert_eq!(Principal::anonymous().to_bytes(), vec![4]);
}
