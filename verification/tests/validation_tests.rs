use datamint::identity::validate_user_permission;
use datamint::storage::Storage;
use datamint::types::UploadRequest;
use datamint::validation::{
    is_valid_cid, validate_data, validate_data_size, validate_metadata_content,
    validate_mime_type,
};
use datamint::Principal;

fn valid_cid() -> String {
    let mut cid = String::from("Qm");
    for _ in 0..44 {
        cid.push('a');
    }
    cid
}

#[test]
fn test_cid_validation() {
    // A reference must be at least 46 characters: too short is refused.
    assert!(!is_valid_cid("QmTest123"));
    assert!(!is_valid_cid(""));
    assert!(!is_valid_cid("Qm@#$%"));
    assert!(!is_valid_cid("invalid"));
    assert!(is_valid_cid(&valid_cid()));
}

#[test]
fn validation_test_mint_request_validation() {
    let storage = Storage::new();
    let cid = "QmTest123";
    let metadata = vec![b"test".to_vec()];
    assert!(storage.validate_mint_request(cid, &metadata).is_err());

    // The reference is shorter than 46 characters, so even well-sized
    // payloads are refused.
    let longer_metadata = vec![b"test_metadata_longer".to_vec()];
    assert!(storage.validate_mint_request(cid, &longer_metadata).is_err());

    // A full-length reference with a well-sized payload passes.
    assert!(storage.validate_mint_request(&valid_cid(), &longer_metadata).is_ok());
}

#[test]
fn test_empty_cid() {
    let storage = Storage::new();
    let cid = "";
    let metadata = vec![b"test_metadata_longer".to_vec()];
    assert!(storage.validate_mint_request(cid, &metadata).is_err());
}

#[test]
fn test_empty_metadata() {
    let storage = Storage::new();
    let cid = "QmTest123";
    let metadata = vec![];
    assert!(storage.validate_mint_request(cid, &metadata).is_err());
}

#[test]
fn test_mime_type_validation() {
    assert!(validate_mime_type("application/json").is_ok());
    assert!(validate_mime_type("text/csv").is_ok());
    assert!(validate_mime_type("application/pdf").is_err());
    assert!(validate_mime_type("").is_err());
}

#[test]
fn test_data_size_validation() {
    let small_data = vec![0u8; 100];
    let large_data = vec![0u8; 1000];

    assert!(validate_data_size(&small_data, 500).is_ok());
    assert!(validate_data_size(&large_data, 500).is_err());
    assert!(validate_data_size(&Vec::new(), 500).is_err());
}

#[test]
fn test_cid_boundaries() {
    // 46 characters is the least accepted length, 100 the greatest.
    let mut cid45 = String::from("Qm");
    for _ in 0..43 {
        cid45.push('b');
    }
    assert!(!is_valid_cid(&cid45));
    let mut cid46 = cid45.clone();
    cid46.push('b');
    assert!(is_valid_cid(&cid46));
    let mut cid100 = String::from("Qm");
    for _ in 0..98 {
        cid100.push('b');
    }
    assert!(is_valid_cid(&cid100));
    let mut cid101 = cid100.clone();
    cid101.push('b');
    assert!(!is_valid_cid(&cid101));
    // The fixed tag and the alphanumeric rule.
    let mut wrong_tag = String::from("Xm");
    for _ in 0..44 {
        wrong_tag.push('b');
    }
    assert!(!is_valid_cid(&wrong_tag));
    let mut with_dash = String::from("Qm");
    for _ in 0..43 {
        with_dash.push('b');
    }
    with_dash.push('-');
    assert!(!is_valid_cid(&with_dash));
}

#[test]
fn test_metadata_content_bounds() {
    assert!(validate_metadata_content(&vec![0u8; 9]).is_err());
    assert!(validate_metadata_content(&vec![0u8; 10]).is_ok());
    assert!(validate_metadata_content(&vec![0u8; 1048576]).is_ok());
    assert!(validate_metadata_content(&vec![0u8; 1048577]).is_err());
}

#[test]
fn test_payload_count_bounds() {
    let storage = Storage::new();
    let cid = valid_cid();
    let hundred: Vec<Vec<u8>> = (0..100).map(|_| vec![1u8; 16]).collect();
    assert!(storage.validate_mint_request(&cid, &hundred).is_ok());
    let hundred_one: Vec<Vec<u8>> = (0..101).map(|_| vec![1u8; 16]).collect();
    assert!(storage.validate_mint_request(&cid, &hundred_one).is_err());
}

#[test]
fn test_upload_envelope_validation() {
    let ok = UploadRequest { content: vec![1, 2, 3], mime_type: "text/csv".to_string() };
    assert!(ok.validate(10).is_ok());
    let too_big = UploadRequest { content: vec![0; 11], mime_type: "text/csv".to_string() };
    assert!(too_big.validate(10).is_err());
    let bad_mime = UploadRequest { content: vec![1], mime_type: "image/png".to_string() };
    assert!(bad_mime.validate(10).is_err());
}

#[test]
fn test_upload_batch_validation() {
    assert!(validate_data(&vec![vec![1u8; 10]]).is_ok());
    assert!(validate_data(&Vec::new()).is_err());
    let many: Vec<Vec<u8>> = (0..10001).map(|_| vec![1u8]).collect();
    assert!(validate_data(&many).is_err());
    assert!(validate_data(&vec![vec![1u8; 1048577]]).is_err());
}

#[test]
fn test_user_permission() {
    let anon = Principal::anonymous();
    let user = Principal::from_bytes(vec![1, 2, 3]);
    assert!(validate_user_permission(&None, &user).is_ok());
    assert!(validate_user_permission(&None, &anon).is_err());
    assert!(validate_user_permission(&Some(Principal::anonymous()), &user).is_err());
    assert!(validate_user_permission(&Some(Principal::from_bytes(vec![7])), &anon).is_ok());
}
