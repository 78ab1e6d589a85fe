use iron_abacus::decimal::Amount;
use iron_abacus::error::SplittingError;
use iron_abacus::receipt::Receipt;

fn dec(text: &str) -> Amount {
    Amount::parse(text).unwrap()
}

#[test]
fn test_no_people_to_share_with() {
    let receipt = Receipt::parse_create_receipt("300,");
    assert!(matches!(
        receipt,
        Err(SplittingError::NotEnoughPeopleError(_))
    ))
}

#[test]
fn test_only_one_person_to_share_with() {
    let receipt = Receipt::parse_create_receipt("300,Alice");
    assert!(matches!(
        receipt,
        Err(SplittingError::NotEnoughPeopleError(_))
    ))
}

#[test]
fn test_non_decimal_total() {
    let receipt = Receipt::parse_create_receipt("wowza,Alice");
    assert!(matches!(
        receipt,
        Err(SplittingError::DecimalParsingError(_))
    ))
}

#[test]
fn test_two_people() {
    let receipt = Receipt::parse_create_receipt("300,Alice,Sam").unwrap();
    assert_eq!(receipt.value, dec("300"));
    assert_eq!(receipt.shared_by, vec!["Alice", "Sam"]);
}

#[test]
fn test_duplicate_people() {
    let receipt = Receipt::parse_create_receipt("300,Alice,Sam,Alice");
    let _ = String::from("The provided names are duplicate.");
    assert!(matches!(
        receipt,
        Err(SplittingError::DuplicatePeopleError(_))
    ));
}

#[test]
fn test_duplicate_people_cased() {
    let receipt = Receipt::parse_create_receipt("300,Alice,Sam,alice").unwrap();
    assert_eq!(receipt.value, dec("300"));
    assert_eq!(receipt.shared_by, vec!["Alice", "Sam", "alice"]);
}

#[test]
fn test_aligning_to_extant_shared_people_fail() {
    let mut receipt = Receipt::parse_create_receipt("300,Alice,Sam,Samuel").unwrap();
    let val = receipt.align_to_shared_by("Al,S,S");
    let _ = "The abbreviation string: Al,S,S has duplicates.".to_string();
    assert!(matches!(val, Err(SplittingError::InvalidAbbreviation(_))));
}

#[test]
fn test_aligning_to_extant_shared_people_pass() {
    let mut receipt = Receipt::parse_create_receipt("300,Alice,Sam,Samuel").unwrap();
    let val = receipt.align_to_shared_by("Al,S,Su").unwrap();
    assert_eq!(val, vec!["Alice", "Sam", "Samuel"]);
}

#[test]
fn test_aligning_to_extant_shared_people_different_order_pass() {
    let mut receipt = Receipt::parse_create_receipt("300,Alice,Sam,Samuel").unwrap();
    let val = receipt.align_to_shared_by("Su,Al,S").unwrap();
    assert_eq!(val, vec!["Samuel", "Alice", "Sam"]);
}

#[test]
fn match_person_by_abbreviation() {
    let mut receipt = Receipt::parse_create_receipt("300,Alice,Sam,Marshall").unwrap();
    receipt
        .parse_add_named_item("Caviar", "150,Al,S,M")
        .unwrap();
    receipt.parse_add_named_item("Drinks", "90,S,A").unwrap();
    assert_eq!(receipt.items[0].shared_by, vec!["Alice", "Sam", "Marshall"]);
    assert_eq!(receipt.items[1].shared_by, vec!["Sam", "Alice"]);

    let val = receipt.parse_add_named_item("More Drinks", "10,S,Sa,Al");
    let _ = format!("Sa maps to Sam, which has already been specified once.");
    assert!(matches!(val, Err(SplittingError::InvalidAbbreviation(_))));
}
