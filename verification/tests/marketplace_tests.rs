use datamint::marketplace::{
    generate_description_preview, normalize_category, normalize_tags, validate_price,
    CreateListingRequest, ListingStatus, UpdateListingRequest,
};
use datamint::search::{extract_keywords, normalize_search_query, tokenize_query};

fn listing_request() -> CreateListingRequest {
    CreateListingRequest {
        title: "A dataset".to_string(),
        description: "Rows and rows of numbers".to_string(),
        price: 1,
        currency: "ICP".to_string(),
        data_ids: vec![1],
        category: "data".to_string(),
        tags: vec!["numbers".to_string()],
        preview_data: None,
    }
}

#[test]
fn create_listing_validation() {
    assert!(listing_request().validate().is_ok());

    let mut blank_title = listing_request();
    blank_title.title = "   ".to_string();
    assert!(blank_title.validate().is_err());

    let mut long_title = listing_request();
    long_title.title = "t".repeat(201);
    assert!(long_title.validate().is_err());

    let mut no_price = listing_request();
    no_price.price = 0;
    assert!(no_price.validate().is_err());

    let mut no_data = listing_request();
    no_data.data_ids = vec![];
    assert!(no_data.validate().is_err());

    let mut many_data = listing_request();
    many_data.data_ids = vec![0; 101];
    assert!(many_data.validate().is_err());

    let mut long_tag = listing_request();
    long_tag.tags = vec!["t".repeat(51)];
    assert!(long_tag.validate().is_err());
}

#[test]
fn update_listing_validation() {
    let empty = UpdateListingRequest {
        listing_id: 1,
        title: None,
        description: None,
        price: None,
        currency: None,
        category: None,
        tags: None,
        preview_data: None,
        status: Some(ListingStatus::Active),
    };
    assert!(empty.validate().is_ok());

    let bad = UpdateListingRequest {
        listing_id: 1,
        title: Some("  ".to_string()),
        description: None,
        price: None,
        currency: None,
        category: None,
        tags: None,
        preview_data: None,
        status: None,
    };
    assert!(bad.validate().is_err());

    let zero_price = UpdateListingRequest {
        listing_id: 1,
        title: None,
        description: None,
        price: Some(0),
        currency: None,
        category: None,
        tags: None,
        preview_data: None,
        status: None,
    };
    assert!(zero_price.validate().is_err());
}

#[test]
fn price_bounds() {
    assert!(validate_price(1_000_000, "ICP").is_ok());
    assert!(validate_price(999_999, "ICP").is_err());
    assert!(validate_price(1_000_000_000_000, "ICP").is_ok());
    assert!(validate_price(1_000_000_000_001, "ICP").is_err());
    assert!(validate_price(100, "USD").is_ok());
    assert!(validate_price(99, "USD").is_err());
    assert!(validate_price(10_000_000, "USD").is_ok());
    assert!(validate_price(10_000_001, "USD").is_err());
    assert!(validate_price(1_000_000, "EUR").is_err());
}

#[test]
fn category_and_tags_normalization() {
    assert_eq!(normalize_category("  Data Sets "), "data sets");
    let tags = normalize_tags(vec![
        " Alpha ".to_string(),
        "alpha".to_string(),
        "".to_string(),
        "  ".to_string(),
        "Beta".to_string(),
        "x".repeat(51),
    ]);
    assert_eq!(tags, vec!["alpha".to_string(), "beta".to_string()]);
}

#[test]
fn tags_capped_at_twenty() {
    let many: Vec<String> = (0..30).map(|i| format!("tag{}", i)).collect();
    let normalized = normalize_tags(many.clone());
    assert_eq!(normalized.len(), 20);
    assert_eq!(normalized[0], "tag0");
    assert_eq!(normalized[19], "tag19");
}

#[test]
fn description_previews() {
    assert_eq!(generate_description_preview("short", 10), "short");
    assert_eq!(generate_description_preview("hello wide world", 9), "hello...");
    assert_eq!(generate_description_preview("abcdefghij", 4), "abcd...");
}

#[test]
fn tokenization() {
    assert_eq!(tokenize_query("Hello, World!"), vec!["hello", "world"]);
    // One-character words are dropped, and so are words with nothing kept.
    assert_eq!(tokenize_query("a bc ?! d"), vec!["bc"]);
    assert_eq!(tokenize_query(""), Vec::<String>::new());
    assert_eq!(normalize_search_query("  Hello,   World! "), "hello world");
}

#[test]
fn keyword_extraction() {
    let keywords = extract_keywords("abc");
    // The token itself and every piece of two or more characters.
    assert!(keywords.contains(&"abc".to_string()));
    assert!(keywords.contains(&"ab".to_string()));
    assert!(keywords.contains(&"bc".to_string()));
    assert_eq!(keywords.len(), 3);

    // Two-character tokens contribute themselves alone.
    let short = extract_keywords("hi");
    assert_eq!(short, vec!["hi".to_string()]);

    // Keywords are reported once even when tokens repeat.
    let repeated = extract_keywords("ab ab");
    assert_eq!(repeated, vec!["ab".to_string()]);
}
