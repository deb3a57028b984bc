use visit_once::identity::identity_of_address;
use visit_once::outcome::{
    outcome_of_insert, page_notice, page_status, render, InsertResult, Outcome, PageVariant,
};

#[test]
fn identity_is_deterministic() {
    let a = identity_of_address("203.0.113.7");
    let b = identity_of_address("203.0.113.7");
    assert_eq!(a, b);
}

#[test]
fn identity_is_known_digest() {
    // The lowercase hex SHA-256 digest of "hello".
    let id = identity_of_address("hello");
    assert_eq!(
        id,
        b"2cf24dba5fb0a30e26e83b2ac5b9e29e1b161e5c1fa7425e73043362938b9824".to_vec()
    );
    // The digest of the empty string is the well-known empty-input digest.
    let empty = identity_of_address("");
    assert_eq!(
        empty,
        b"e3b0c44298fc1c149afbf4c8996fb92427ae41e4649b934ca495991b7852b855".to_vec()
    );
}

#[test]
fn identity_is_not_the_address() {
    let id = identity_of_address("203.0.113.7");
    assert_eq!(id.len(), 64);
    assert_ne!(id, b"203.0.113.7".to_vec());
    assert!(id
        .iter()
        .all(|b| (b'0'..=b'9').contains(b) || (b'a'..=b'f').contains(b)));
}

#[test]
fn insert_results_map_to_outcomes() {
    assert!(matches!(
        outcome_of_insert(InsertResult::Inserted),
        Outcome::FirstVisitToday
    ));
    assert!(matches!(
        outcome_of_insert(InsertResult::DuplicatePair),
        Outcome::AlreadyCounted
    ));
    match outcome_of_insert(InsertResult::Failed(String::from("disk full"))) {
        Outcome::Failure(detail) => assert_eq!(detail, "disk full"),
        _ => panic!("a failed insert must map to a failure outcome"),
    }
}

#[test]
fn outcomes_map_to_page_variants() {
    assert!(matches!(
        render(&Outcome::FirstVisitToday),
        PageVariant::SuccessPage
    ));
    assert!(matches!(
        render(&Outcome::AlreadyCounted),
        PageVariant::AlreadyCountedNotice
    ));
    assert!(matches!(
        render(&Outcome::Failure(String::from("connection reset"))),
        PageVariant::ServerError
    ));
}

#[test]
fn page_notices_and_statuses() {
    assert_eq!(page_notice(&PageVariant::SuccessPage), "");
    assert_eq!(
        page_notice(&PageVariant::AlreadyCountedNotice),
        "Your ip has already been counted :)"
    );
    assert_eq!(page_notice(&PageVariant::ServerError), "");
    assert_eq!(page_status(&PageVariant::SuccessPage), 200);
    assert_eq!(page_status(&PageVariant::AlreadyCountedNotice), 200);
    assert_eq!(page_status(&PageVariant::ServerError), 500);
}
