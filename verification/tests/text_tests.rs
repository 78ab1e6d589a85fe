use iron_abacus::text::is_abbrev_match_to_string;

#[test]
fn match_person_to_name() {
    assert_eq!(is_abbrev_match_to_string("Hn", "Hannah"), true);
    assert_eq!(is_abbrev_match_to_string("Hh", "Hannah"), true);
    assert_eq!(is_abbrev_match_to_string("Hb", "Hannah"), false);
}
