use iron_abacus::arguments::{item_name, parse_args};
use iron_abacus::decimal::Amount;
use iron_abacus::error::{ErrorKind, SplittingError};
use iron_abacus::pattern::split_by_comma;
use iron_abacus::receipt::Receipt;
use iron_abacus::text::{
    chars_of, clone_names, contains_name, find_name, is_string_vec_unique, is_vec_len_gt_1,
    split_commas, strs_to_strings,
};

fn dec(text: &str) -> Amount {
    Amount::parse(text).unwrap()
}

fn args(values: &[&str]) -> Vec<String> {
    strs_to_strings(values.to_vec())
}

#[test]
fn chars_of_lists_characters() {
    assert_eq!(chars_of("Zoë"), vec!['Z', 'o', 'ë']);
    assert!(chars_of("").is_empty());
}

#[test]
fn unique_strings() {
    assert_eq!(is_string_vec_unique(&["a", "b", "A"], 7), Ok(true));
    assert_eq!(is_string_vec_unique(&[], 7), Ok(true));
    assert_eq!(is_string_vec_unique(&["a", "b", "a"], 7), Err(7));
}

#[test]
fn more_than_one_string() {
    assert_eq!(is_vec_len_gt_1(&[], "few"), Err("few"));
    assert_eq!(is_vec_len_gt_1(&["a"], "few"), Err("few"));
    assert_eq!(is_vec_len_gt_1(&["a", "b"], "few"), Ok(true));
}

#[test]
fn strings_from_strs() {
    assert_eq!(
        strs_to_strings(vec!["Alice", "Bob"]),
        vec!["Alice".to_string(), "Bob".to_string()]
    );
    assert!(strs_to_strings(vec![]).is_empty());
}

#[test]
fn names_are_found_where_they_first_stand() {
    let people = args(&["Alice", "Bob", "Alice"]);
    assert_eq!(find_name(&people, "Alice"), Some(0));
    assert_eq!(find_name(&people, "Bob"), Some(1));
    assert_eq!(find_name(&people, "bob"), None);
    assert!(contains_name(&people, "Bob"));
    assert!(!contains_name(&people, "Marshall"));
    assert_eq!(clone_names(&people), people);
}

#[test]
fn comma_fields() {
    assert_eq!(split_commas("Al,S,Su"), vec!["Al", "S", "Su"]);
    assert_eq!(split_commas("Alice"), vec!["Alice"]);
    assert_eq!(split_commas(""), vec![""]);
    assert_eq!(split_commas("a,"), vec!["a", ""]);
    assert_eq!(split_commas(",a,,b"), vec!["", "a", "", "b"]);
}

#[test]
fn split_at_the_first_comma() {
    assert_eq!(
        split_by_comma("300,Alice,Sam", "no comma"),
        Ok(("300".to_string(), "Alice,Sam".to_string()))
    );
    assert_eq!(
        split_by_comma("300,", "no comma"),
        Ok(("300".to_string(), String::new()))
    );
    assert_eq!(
        split_by_comma(",", "no comma"),
        Ok((String::new(), String::new()))
    );
    assert_eq!(
        split_by_comma("300", "no comma"),
        Err(SplittingError::DecimalParsingError("no comma".to_string()))
    );
}

#[test]
fn receipt_text_without_comma_is_refused() {
    assert!(matches!(
        Receipt::parse_create_receipt("300"),
        Err(SplittingError::DecimalParsingError(_))
    ));
}

#[test]
fn abbreviation_with_disjoint_names_finds_its_owner() {
    let mut receipt = Receipt::new(dec("10"), vec!["abc", "xyz", "mno"]).unwrap();
    assert_eq!(receipt.align_to_shared_by("zx").unwrap(), vec!["xyz"]);
    assert_eq!(receipt.align_to_shared_by("ca,o").unwrap(), vec!["abc", "mno"]);
    assert_eq!(
        receipt.mapped_abbreviations,
        vec![
            ("zx".to_string(), "xyz".to_string()),
            ("ca".to_string(), "abc".to_string()),
            ("o".to_string(), "mno".to_string()),
        ]
    );
    assert!(receipt.is_well_formed());
}

#[test]
fn first_free_match_wins() {
    let mut receipt = Receipt::parse_create_receipt("300,Alice,Sam,Samuel").unwrap();
    assert_eq!(
        receipt.align_to_shared_by("S,Sa").unwrap(),
        vec!["Sam", "Samuel"]
    );
}

#[test]
fn learned_abbreviations_stay() {
    let mut receipt = Receipt::parse_create_receipt("300,Alice,Sam,Samuel").unwrap();
    assert_eq!(receipt.align_to_shared_by("S,Sa").unwrap(), vec!["Sam", "Samuel"]);
    assert_eq!(receipt.align_to_shared_by("Sa").unwrap(), vec!["Samuel"]);
    assert_eq!(receipt.align_to_shared_by("Sa,S").unwrap(), vec!["Samuel", "Sam"]);
    assert_eq!(receipt.mapped_abbreviations.len(), 2);
}

#[test]
fn clash_of_learned_abbreviations() {
    let mut receipt = Receipt::parse_create_receipt("300,Alice,Sam,Marshall").unwrap();
    assert_eq!(receipt.align_to_shared_by("S").unwrap(), vec!["Sam"]);
    let clash = receipt.align_to_shared_by("Sa,S");
    assert!(matches!(
        clash,
        Err(SplittingError::DuplicatePeopleError(_))
    ));
    assert_eq!(
        clash.unwrap_err().message(),
        "S maps to Sam, which has already been specified once."
    );
    assert_eq!(
        receipt.mapped_abbreviations,
        vec![
            ("S".to_string(), "Sam".to_string()),
            ("Sa".to_string(), "Sam".to_string()),
        ]
    );
}

#[test]
fn unknown_abbreviation() {
    let mut receipt = Receipt::parse_create_receipt("300,Alice,Sam,Marshall").unwrap();
    let unknown = receipt.align_to_shared_by("Al,Q");
    assert!(matches!(
        unknown,
        Err(SplittingError::InvalidAbbreviation(_))
    ));
    assert_eq!(
        unknown.unwrap_err().message(),
        "Q does not match to a provided person name."
    );
    assert_eq!(
        receipt.mapped_abbreviations,
        vec![("Al".to_string(), "Alice".to_string())]
    );
}

#[test]
fn repeated_abbreviations_are_refused_whatever_was_learned() {
    let mut receipt = Receipt::parse_create_receipt("300,Alice,Sam").unwrap();
    let fresh = receipt.align_to_shared_by("Al,S,S");
    assert!(matches!(fresh, Err(SplittingError::InvalidAbbreviation(_))));
    assert_eq!(
        fresh.unwrap_err().message(),
        "The abbreviation string: Al,S,S has duplicates."
    );
    assert!(receipt.mapped_abbreviations.is_empty());
    receipt.align_to_shared_by("Al,S").unwrap();
    let learned = receipt.mapped_abbreviations.clone();
    let again = receipt.align_to_shared_by("Al,S,S");
    assert!(matches!(again, Err(SplittingError::InvalidAbbreviation(_))));
    assert_eq!(receipt.mapped_abbreviations, learned);
}

#[test]
fn named_item_is_added_with_equal_weights() {
    let mut receipt = Receipt::parse_create_receipt("300,Alice,Sam,Marshall").unwrap();
    receipt.parse_add_named_item("Caviar", "150.50,M,Al").unwrap();
    assert_eq!(receipt.items.len(), 1);
    assert_eq!(receipt.items[0].name, "Caviar");
    assert_eq!(receipt.items[0].value, dec("150.5"));
    assert_eq!(receipt.items[0].shared_by, vec!["Marshall", "Alice"]);
    assert_eq!(receipt.items[0].share_ratio, vec![dec("1"), dec("1")]);
    assert!(!receipt.items[0].is_prop_dist);
}

#[test]
fn named_item_refusals() {
    let mut receipt = Receipt::parse_create_receipt("300,Alice,Sam,Marshall").unwrap();
    let before = receipt.clone();
    let no_comma = receipt.parse_add_named_item("Caviar", "150");
    assert_eq!(no_comma.unwrap_err().error_kind(), ErrorKind::DecimalParsing);
    let no_decimal = receipt.parse_add_named_item("Caviar", "lots,Al");
    assert_eq!(no_decimal.unwrap_err().error_kind(), ErrorKind::DecimalParsing);
    assert_eq!(receipt, before);
    let nameless = receipt.parse_add_named_item("", "150,Al");
    assert_eq!(nameless.unwrap_err().error_kind(), ErrorKind::InvalidField);
    assert!(receipt.items.is_empty());
    assert_eq!(
        receipt.mapped_abbreviations,
        vec![("Al".to_string(), "Alice".to_string())]
    );
}

#[test]
fn item_names_stand_behind_dashes() {
    assert_eq!(item_name("--Caviar"), Some("Caviar".to_string()));
    assert_eq!(item_name("-Caviar"), Some("Caviar".to_string()));
    assert_eq!(item_name("---x"), Some("-x".to_string()));
    assert_eq!(item_name("-"), Some(String::new()));
    assert_eq!(item_name("--"), Some(String::new()));
    assert_eq!(item_name("Caviar"), None);
    assert_eq!(item_name(""), None);
}

#[test]
fn arguments_describe_a_receipt() {
    let receipt = parse_args(&args(&[
        "split",
        "300,Alice,Sam,Marshall",
        "--Caviar",
        "150,Al,S,M",
        "-Drinks",
        "90,S,A",
    ]))
    .unwrap();
    assert_eq!(receipt.value, dec("300"));
    assert_eq!(receipt.shared_by, vec!["Alice", "Sam", "Marshall"]);
    assert_eq!(receipt.items.len(), 2);
    assert_eq!(receipt.items[0].name, "Caviar");
    assert_eq!(receipt.items[0].shared_by, vec!["Alice", "Sam", "Marshall"]);
    assert_eq!(receipt.items[1].name, "Drinks");
    assert_eq!(receipt.items[1].value, dec("90"));
    assert_eq!(receipt.items[1].shared_by, vec!["Sam", "Alice"]);
}

#[test]
fn arguments_without_a_receipt_are_refused() {
    assert!(matches!(
        parse_args(&args(&["split"])),
        Err(SplittingError::InvalidArgument(_))
    ));
    assert!(matches!(
        parse_args(&args(&[])),
        Err(SplittingError::InvalidArgument(_))
    ));
}

#[test]
fn arguments_need_dashes_before_item_names() {
    let refused = parse_args(&args(&["split", "300,Alice,Sam", "Caviar", "150,Al"]));
    assert!(matches!(refused, Err(SplittingError::InvalidArgument(_))));
    assert_eq!(
        refused.unwrap_err().message(),
        "Argument 1 is expected (in this case) to be an item name, and must be prefixed with a dash (-) or a double dash (--). Currently, it is Caviar"
    );
}

#[test]
fn arguments_pass_on_what_the_items_refuse() {
    let refused = parse_args(&args(&["split", "300,Alice,Sam", "--Caviar", "150,Q"]));
    assert!(matches!(refused, Err(SplittingError::InvalidAbbreviation(_))));
    let receipt = parse_args(&args(&["split", "wowza,Alice,Sam"]));
    assert!(matches!(
        receipt,
        Err(SplittingError::DecimalParsingError(_))
    ));
}

#[test]
fn a_name_without_its_item_is_passed_over() {
    let receipt = parse_args(&args(&["split", "300,Alice,Sam", "--Caviar"])).unwrap();
    assert!(receipt.items.is_empty());
}
