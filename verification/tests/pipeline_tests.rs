use datamint::storage::Storage;
use datamint::types::{Error, MintRequest, MintStatus};
use datamint::Principal;

fn valid_cid() -> String {
    let mut cid = String::from("Qm");
    for _ in 0..44 {
        cid.push('a');
    }
    cid
}

fn caller() -> Principal {
    Principal::from_bytes(vec![1, 2, 3, 4])
}

fn payload() -> Vec<u8> {
    b"a payload of respectable size".to_vec()
}

#[test]
fn integration_tests_test_error_recovery_scenarios() {
    let storage = Storage::new();

    let non_existent_data = storage.get_uploaded_data(99999);
    assert!(non_existent_data.is_none());

    let non_existent_status = storage.get_mint_status(99999);
    assert!(non_existent_status.is_none());
}

#[test]
fn integration_tests_test_system_functionality() {
    let storage = Storage::new();
    let stats = storage.get_storage_stats();
    assert_eq!(stats.total_uploads, 0);
    assert_eq!(stats.total_mint_requests, 0);
}

#[test]
fn integration_tests_test_mint_request_validation() {
    let mut storage = Storage::new();
    // A submission always yields a positive id, valid or not.
    let valid_request = MintRequest {
        owner: None,
        cid: "QmValidCID123456789".to_string(),
        metadata: vec![b"valid metadata".to_vec()],
    };
    let result = storage.request_mint(valid_request, &caller(), 1);
    assert!(result.request_id > 0);
}

#[test]
fn full_success_path() {
    let mut storage = Storage::new();
    let p = payload();

    // Submit: the request starts Pending.
    let request = MintRequest { owner: None, cid: valid_cid(), metadata: vec![p.clone()] };
    let id = storage.request_mint(request, &caller(), 10).request_id;
    assert_eq!(storage.get_mint_status(id), Some(MintStatus::Pending));

    // One tick claims it: InProgress, and the tick hands out the request.
    let (claimed_id, claimed) = storage.dispatch_tick().expect("a pending request");
    assert_eq!(claimed_id, id);
    assert_eq!(claimed.metadata, vec![p.clone()]);
    assert_eq!(storage.get_mint_status(id), Some(MintStatus::InProgress));

    // The external success reply completes it with the token id.
    storage.update_mint_status(id, MintStatus::Completed(7)).unwrap();
    assert_eq!(storage.get_mint_status(id), Some(MintStatus::Completed(7)));

    // The payload digest is now in the minted set.
    assert!(storage.check_data_minted(&p));
}

#[test]
fn mint_blocks_reingestion() {
    let mut storage = Storage::new();
    let p = payload();
    let record_id = storage.ingest(p.clone(), "application/json", 1).unwrap();

    let request = MintRequest { owner: None, cid: valid_cid(), metadata: vec![p.clone()] };
    let id = storage.request_mint(request, &caller(), 2).request_id;
    storage.dispatch_tick().unwrap();
    storage.update_mint_status(id, MintStatus::Completed(1)).unwrap();

    // Ingesting the minted payload again is refused for good.
    assert_eq!(
        storage.ingest(p.clone(), "application/json", 3),
        Err(Error::AlreadyMinted(Some(record_id)))
    );

    // A payload never stored as a record is still blocked once minted.
    let mut storage2 = Storage::new();
    let request2 = MintRequest { owner: None, cid: valid_cid(), metadata: vec![p.clone()] };
    let id2 = storage2.request_mint(request2, &caller(), 1).request_id;
    storage2.dispatch_tick().unwrap();
    storage2.update_mint_status(id2, MintStatus::Completed(1)).unwrap();
    assert_eq!(storage2.ingest(p, "application/json", 2), Err(Error::AlreadyMinted(None)));
}

#[test]
fn protected_deletion() {
    let mut storage = Storage::new();
    let p = payload();
    let record_id = storage.ingest(p.clone(), "application/json", 1).unwrap();

    let request = MintRequest { owner: None, cid: valid_cid(), metadata: vec![p.clone()] };
    let id = storage.request_mint(request, &caller(), 2).request_id;
    storage.dispatch_tick().unwrap();
    storage.update_mint_status(id, MintStatus::Completed(9)).unwrap();

    // The record holding minted content can never be deleted.
    assert_eq!(storage.delete_uploaded_data(record_id), Err(Error::Protected));
    assert!(storage.get_uploaded_data(record_id).is_some());
}

#[test]
fn reference_validation_fails_terminally() {
    let mut storage = Storage::new();
    let request =
        MintRequest { owner: None, cid: "short".to_string(), metadata: vec![payload()] };
    let id = storage.request_mint(request, &caller(), 5).request_id;

    // The refused submission still gets an id, and its status is Failed
    // from the start — it was never Pending.
    match storage.get_mint_status(id) {
        Some(MintStatus::Failed(_)) => (),
        other => panic!("expected a failed status, got {:?}", other),
    }
    // No tick ever claims it.
    assert!(storage.dispatch_tick().is_none());
}

#[test]
fn anonymous_requester_is_refused() {
    let mut storage = Storage::new();
    let request = MintRequest { owner: None, cid: valid_cid(), metadata: vec![payload()] };
    let id = storage.request_mint(request, &Principal::anonymous(), 5).request_id;
    match storage.get_mint_status(id) {
        Some(MintStatus::Failed(_)) => (),
        other => panic!("expected a failed status, got {:?}", other),
    }
}

#[test]
fn no_double_dispatch() {
    let mut storage = Storage::new();
    let p1 = b"first payload body".to_vec();
    let p2 = b"second payload body".to_vec();
    let r1 = MintRequest { owner: None, cid: valid_cid(), metadata: vec![p1] };
    let r2 = MintRequest { owner: None, cid: valid_cid(), metadata: vec![p2] };
    let id1 = storage.request_mint(r1, &caller(), 1).request_id;
    let id2 = storage.request_mint(r2, &caller(), 2).request_id;

    // Two ticks before any reply claim two different requests.
    let (first, _) = storage.dispatch_tick().unwrap();
    let (second, _) = storage.dispatch_tick().unwrap();
    assert_eq!(first, id1);
    assert_eq!(second, id2);
    assert_ne!(first, second);

    // A third tick with nothing pending performs no mutation.
    assert!(storage.dispatch_tick().is_none());
    assert_eq!(storage.get_mint_status(id1), Some(MintStatus::InProgress));
    assert_eq!(storage.get_mint_status(id2), Some(MintStatus::InProgress));
}

#[test]
fn failure_is_terminal() {
    let mut storage = Storage::new();
    let request = MintRequest { owner: None, cid: valid_cid(), metadata: vec![payload()] };
    let id = storage.request_mint(request, &caller(), 1).request_id;
    storage.dispatch_tick().unwrap();
    storage
        .update_mint_status(id, MintStatus::Failed("the authority said no".to_string()))
        .unwrap();

    // No transition leaves Failed, and further ticks never touch it.
    assert_eq!(
        storage.update_mint_status(id, MintStatus::Completed(3)),
        Err(Error::InvalidTransition)
    );
    assert_eq!(
        storage.update_mint_status(id, MintStatus::InProgress),
        Err(Error::InvalidTransition)
    );
    assert!(storage.dispatch_tick().is_none());
    match storage.get_mint_status(id) {
        Some(MintStatus::Failed(reason)) => assert_eq!(reason, "the authority said no"),
        other => panic!("expected a failed status, got {:?}", other),
    }
}

#[test]
fn completed_is_terminal() {
    let mut storage = Storage::new();
    let request = MintRequest { owner: None, cid: valid_cid(), metadata: vec![payload()] };
    let id = storage.request_mint(request, &caller(), 1).request_id;
    storage.dispatch_tick().unwrap();
    storage.update_mint_status(id, MintStatus::Completed(4)).unwrap();
    assert_eq!(
        storage.update_mint_status(id, MintStatus::Failed("late".to_string())),
        Err(Error::InvalidTransition)
    );
    assert_eq!(storage.get_mint_status(id), Some(MintStatus::Completed(4)));
}

#[test]
fn unknown_request_statuses() {
    let mut storage = Storage::new();
    assert_eq!(
        storage.update_mint_status(12, MintStatus::InProgress),
        Err(Error::NotFound)
    );
    assert!(storage.get_mint_request(12).is_none());
    assert!(storage.get_next_pending_mint().is_none());
}

#[test]
fn list_mint_requests_shows_all() {
    let mut storage = Storage::new();
    let ok = MintRequest { owner: None, cid: valid_cid(), metadata: vec![payload()] };
    let bad = MintRequest { owner: None, cid: "nope".to_string(), metadata: vec![payload()] };
    let id1 = storage.request_mint(ok, &caller(), 1).request_id;
    let id2 = storage.request_mint(bad, &caller(), 2).request_id;
    let infos = storage.list_mint_requests();
    assert_eq!(infos.len(), 2);
    assert_eq!(infos[0].request_id, id1);
    assert_eq!(infos[0].status, MintStatus::Pending);
    assert_eq!(infos[1].request_id, id2);
    assert!(matches!(infos[1].status, MintStatus::Failed(_)));
    assert_eq!(infos[0].timestamp, 1);
    assert_eq!(infos[1].timestamp, 2);
}
