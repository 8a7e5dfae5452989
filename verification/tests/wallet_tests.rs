use datamint::wallet::{
    calculate_commission_fee, format_icp_balance, parse_icp_amount, CreateTradeOfferRequest,
    CreateWalletRequest, OfferType, UpdateProfileRequest,
};

fn wallet_request() -> CreateWalletRequest {
    CreateWalletRequest {
        username: Some("data_miner_01".to_string()),
        display_name: Some("Data Miner".to_string()),
        avatar_url: None,
        bio: Some("digs datasets".to_string()),
        email: Some("miner@example.com".to_string()),
    }
}

#[test]
fn wallet_request_validation() {
    assert!(wallet_request().validate().is_ok());

    let mut blank_name = wallet_request();
    blank_name.username = Some("  ".to_string());
    assert!(blank_name.validate().is_err());

    let mut long_name = wallet_request();
    long_name.username = Some("u".repeat(51));
    assert!(long_name.validate().is_err());

    let mut odd_name = wallet_request();
    odd_name.username = Some("no spaces!".to_string());
    assert!(odd_name.validate().is_err());

    let mut long_bio = wallet_request();
    long_bio.bio = Some("b".repeat(501));
    assert!(long_bio.validate().is_err());

    let empty = CreateWalletRequest {
        username: None,
        display_name: None,
        avatar_url: None,
        bio: None,
        email: None,
    };
    assert!(empty.validate().is_ok());
}

#[test]
fn email_validation() {
    let with_email = |e: &str| CreateWalletRequest {
        username: None,
        display_name: None,
        avatar_url: None,
        bio: None,
        email: Some(e.to_string()),
    };
    assert!(with_email("a@b.c").validate().is_ok());
    assert!(with_email("first.last@sub.example.org").validate().is_ok());
    assert!(with_email("@b.c").validate().is_err());
    assert!(with_email("a@bc").validate().is_err());
    assert!(with_email("a@b.").validate().is_err());
    assert!(with_email("a@.c").validate().is_err());
    assert!(with_email("a@@b.c").validate().is_err());
    assert!(with_email("abc").validate().is_err());
}

#[test]
fn profile_update_validation() {
    let ok = UpdateProfileRequest {
        username: Some("fresh_name".to_string()),
        display_name: None,
        avatar_url: None,
        bio: None,
        email: None,
    };
    assert!(ok.validate().is_ok());
    let bad = UpdateProfileRequest {
        username: None,
        display_name: Some("d".repeat(101)),
        avatar_url: None,
        bio: None,
        email: None,
    };
    assert!(bad.validate().is_err());
}

#[test]
fn trade_offer_validation() {
    let offer = |price: u64, currency: &str, hours: Option<u64>| CreateTradeOfferRequest {
        listing_id: 1,
        price,
        currency: currency.to_string(),
        offer_type: OfferType::DirectPurchase,
        expires_in_hours: hours,
        message: None,
    };
    assert!(offer(10, "ICP", None).validate().is_ok());
    assert!(offer(10, "USD", Some(720)).validate().is_ok());
    assert!(offer(0, "ICP", None).validate().is_err());
    assert!(offer(10, "EUR", None).validate().is_err());
    assert!(offer(10, "ICP", Some(0)).validate().is_err());
    assert!(offer(10, "ICP", Some(721)).validate().is_err());
}

#[test]
fn commission_fee() {
    // 2.5 percent, rounded down.
    assert_eq!(calculate_commission_fee(1000), 25);
    assert_eq!(calculate_commission_fee(39), 0);
    assert_eq!(calculate_commission_fee(40), 1);
    assert_eq!(calculate_commission_fee(100_000_000), 2_500_000);
}

#[test]
fn balance_formatting() {
    assert_eq!(format_icp_balance(0), "0.00000000 ICP");
    assert_eq!(format_icp_balance(5), "0.00000005 ICP");
    assert_eq!(format_icp_balance(123_456_789), "1.23456789 ICP");
    assert_eq!(format_icp_balance(250_000_000_000), "2500.00000000 ICP");
}

#[test]
fn amount_parsing() {
    assert_eq!(parse_icp_amount("2"), Ok(200_000_000));
    assert_eq!(parse_icp_amount("1.5"), Ok(150_000_000));
    assert_eq!(parse_icp_amount(".5"), Ok(50_000_000));
    assert_eq!(parse_icp_amount("1."), Ok(100_000_000));
    assert_eq!(parse_icp_amount("0.00000001"), Ok(1));
    // Digits beyond the eighth fractional place are cut off.
    assert_eq!(parse_icp_amount("1.123456789"), Ok(112_345_678));
    assert!(parse_icp_amount("").is_err());
    assert!(parse_icp_amount(".").is_err());
    assert!(parse_icp_amount("-1").is_err());
    assert!(parse_icp_amount("1.2.3").is_err());
    assert!(parse_icp_amount("abc").is_err());
    // A value beyond the counter's capacity is capped at it.
    assert_eq!(parse_icp_amount("999999999999999999999"), Ok(u64::MAX));
}
