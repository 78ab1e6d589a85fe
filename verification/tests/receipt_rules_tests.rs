use iron_abacus::decimal::Amount;
use iron_abacus::error::{ErrorKind, SplittingError};
use iron_abacus::proportion::sum_amounts;
use iron_abacus::receipt::{Receipt, ReceiptItem};
use iron_abacus::text::strs_to_strings;

fn dec(text: &str) -> Amount {
    Amount::parse(text).unwrap()
}

fn decs(texts: &[&str]) -> Vec<Amount> {
    texts.iter().map(|t| dec(t)).collect()
}

fn names(values: &[&str]) -> Vec<String> {
    strs_to_strings(values.to_vec())
}

fn trio(total: &str) -> Receipt {
    Receipt::new(dec(total), vec!["Alice", "Bob", "Marshall"]).unwrap()
}

fn food_and_drinks() -> Receipt {
    let mut receipt = trio("300");
    receipt
        .add_item_split_by_ratio(
            dec("200"),
            "Food".into(),
            names(&["Alice", "Bob", "Marshall"]),
            None,
        )
        .unwrap();
    receipt
        .add_item_split_by_ratio(dec("50"), "Drinks".into(), names(&["Alice", "Bob"]), None)
        .unwrap();
    receipt
}

fn burgers_tax_and_tip() -> Receipt {
    let mut receipt = trio("300");
    receipt
        .add_item_split_by_ratio(dec("30"), "Hearty Burger".into(), names(&["Alice"]), None)
        .unwrap();
    receipt
        .add_item_split_by_ratio(dec("60"), "Unhealthy Burger".into(), names(&["Bob"]), None)
        .unwrap();
    receipt
        .add_item_split_by_ratio(dec("15"), "Vegan Salad".into(), names(&["Marshall"]), None)
        .unwrap();
    receipt
        .add_item_split_by_proportion(dec("50"), "Tax".into(), names(&["Alice", "Bob"]))
        .unwrap();
    receipt
        .add_item_split_by_proportion(dec("50"), "Tip".into(), names(&["Bob", "Marshall"]))
        .unwrap();
    receipt
}

#[test]
fn new_receipt_is_empty_and_well_formed() {
    let receipt = trio("300");
    assert_eq!(receipt.value, dec("300"));
    assert_eq!(receipt.shared_by, vec!["Alice", "Bob", "Marshall"]);
    assert!(receipt.items.is_empty());
    assert!(receipt.mapped_abbreviations.is_empty());
    assert!(receipt.is_well_formed());
}

#[test]
fn new_receipt_refuses_repeated_people() {
    let refused = Receipt::new(dec("300"), vec!["Alice", "Bob", "Alice"]);
    assert!(matches!(
        refused,
        Err(SplittingError::DuplicatePeopleError(_))
    ));
    let cased = Receipt::new(dec("300"), vec!["Al", "al"]);
    assert!(cased.is_ok());
}

#[test]
fn new_receipt_refuses_fewer_than_two_people() {
    assert!(matches!(
        Receipt::new(dec("300"), vec![]),
        Err(SplittingError::NotEnoughPeopleError(_))
    ));
    assert!(matches!(
        Receipt::new(dec("300"), vec!["Alice"]),
        Err(SplittingError::NotEnoughPeopleError(_))
    ));
    let refused = Receipt::new(dec("300"), vec!["Alice", "Alice"]);
    assert!(matches!(
        refused,
        Err(SplittingError::DuplicatePeopleError(_))
    ));
}

#[test]
fn ratio_item_defaults_to_equal_weights() {
    let receipt = food_and_drinks();
    assert_eq!(receipt.items.len(), 2);
    assert_eq!(receipt.items[0].share_ratio, decs(&["1", "1", "1"]));
    assert_eq!(receipt.items[1].share_ratio, decs(&["1", "1"]));
    assert!(!receipt.items[0].is_prop_dist);
    assert_eq!(receipt.items[1].name, "Drinks");
    assert_eq!(receipt.items[1].value, dec("50"));
}

#[test]
fn ratio_item_keeps_given_weights() {
    let mut receipt = trio("300");
    receipt
        .add_item_split_by_ratio(
            dec("90"),
            "Wine".into(),
            names(&["Alice", "Bob"]),
            Some(decs(&["2", "1"])),
        )
        .unwrap();
    assert_eq!(receipt.items[0].share_ratio, decs(&["2", "1"]));
    let (_, rows) = receipt.calculate_splits().unwrap();
    assert_eq!(rows[0], decs(&["60", "30", "0", "90"]));
}

#[test]
fn ratio_item_refuses_mismatched_weights() {
    let mut receipt = food_and_drinks();
    let before = receipt.clone();
    let refused = receipt
        .add_item_split_by_ratio(
            dec("10"),
            "Bread".into(),
            names(&["Alice", "Bob"]),
            Some(decs(&["1"])),
        )
        .map(|_| ());
    assert!(matches!(
        refused,
        Err(SplittingError::InvalidShareConfiguration(_))
    ));
    assert_eq!(
        refused.unwrap_err().message(),
        "Length mismatch: people sharing 2 and the ratios of the shares 1 have differing lengths."
    );
    assert_eq!(receipt, before);
}

#[test]
fn ratio_item_refuses_nobody_sharing() {
    let mut receipt = food_and_drinks();
    let before = receipt.clone();
    let refused = receipt
        .add_item_split_by_ratio(dec("10"), "Bread".into(), vec![], None)
        .map(|_| ());
    assert!(matches!(
        refused,
        Err(SplittingError::NotEnoughPeopleError(_))
    ));
    assert_eq!(receipt, before);
}

#[test]
fn ratio_item_refuses_empty_name() {
    let mut receipt = food_and_drinks();
    let before = receipt.clone();
    let refused = receipt
        .add_item_split_by_ratio(dec("10"), String::new(), names(&["Alice"]), None)
        .map(|_| ());
    assert!(matches!(refused, Err(SplittingError::InvalidFieldError(_))));
    assert_eq!(receipt, before);
}

#[test]
fn proportional_item_refuses_nobody_sharing_and_empty_name() {
    let mut receipt = food_and_drinks();
    let before = receipt.clone();
    let nobody = receipt
        .add_item_split_by_proportion(dec("10"), "Tax".into(), vec![])
        .map(|_| ());
    assert!(matches!(
        nobody,
        Err(SplittingError::NotEnoughPeopleError(_))
    ));
    let nameless = receipt
        .add_item_split_by_proportion(dec("10"), String::new(), names(&["Alice"]))
        .map(|_| ());
    assert!(matches!(nameless, Err(SplittingError::InvalidFieldError(_))));
    assert_eq!(receipt, before);
}

#[test]
fn nobody_sharing_is_refused_alike_by_ratio_and_by_proportion() {
    let mut receipt = food_and_drinks();
    let before = receipt.clone();
    let by_ratio = receipt
        .add_item_split_by_ratio(dec("10"), "Tax".into(), vec![], None)
        .map(|_| ())
        .unwrap_err();
    let by_proportion = receipt
        .add_item_split_by_proportion(dec("10"), "Tax".into(), vec![])
        .map(|_| ())
        .unwrap_err();
    assert_eq!(by_ratio.error_kind(), ErrorKind::NotEnoughPeople);
    assert_eq!(by_proportion.error_kind(), ErrorKind::NotEnoughPeople);
    let both_missing = receipt
        .add_item_split_by_proportion(dec("10"), String::new(), vec![])
        .map(|_| ())
        .unwrap_err();
    assert_eq!(both_missing.error_kind(), ErrorKind::NotEnoughPeople);
    assert_eq!(receipt, before);
}

#[test]
fn proportional_item_needs_something_to_follow() {
    let mut receipt = trio("300");
    let refused = receipt
        .add_item_split_by_proportion(dec("10"), "Tax".into(), names(&["Alice", "Bob"]))
        .map(|_| ());
    assert!(matches!(refused, Err(SplittingError::InternalError(_))));
    assert!(receipt.items.is_empty());
}

#[test]
fn proportional_weights_follow_the_order_of_the_sharers() {
    let mut receipt = trio("300");
    receipt
        .add_item_split_by_ratio(dec("30"), "Hearty Burger".into(), names(&["Alice"]), None)
        .unwrap();
    receipt
        .add_item_split_by_ratio(dec("60"), "Unhealthy Burger".into(), names(&["Bob"]), None)
        .unwrap();
    receipt
        .add_item_split_by_proportion(dec("50"), "Tax".into(), names(&["Bob", "Alice"]))
        .unwrap();
    assert_eq!(receipt.items[2].share_ratio, decs(&["33.33", "16.67"]));
    let (_, rows) = receipt.calculate_splits().unwrap();
    assert_eq!(rows[2], decs(&["16.67", "33.33", "0", "50"]));
}

#[test]
fn standings_add_up_what_everyone_owes() {
    let receipt = burgers_tax_and_tip();
    let by_ratio = receipt.calculate_receipt_proportions(true).unwrap();
    assert_eq!(by_ratio, decs(&["30", "60", "15"]));
    let all = receipt.calculate_receipt_proportions(false).unwrap();
    assert_eq!(all, decs(&["46.67", "133.33", "25"]));
}

#[test]
fn derived_weights_are_rounded_shares() {
    let receipt = burgers_tax_and_tip();
    let weights = receipt
        .calculate_item_share_ratio_by_proportion(&names(&["Alice", "Marshall"]), dec("90"))
        .unwrap();
    assert_eq!(weights, decs(&["60", "30"]));
    let stranger = receipt
        .calculate_item_share_ratio_by_proportion(&names(&["Alice", "Zed"]), dec("90"))
        .unwrap();
    assert_eq!(stranger, decs(&["90", "0"]));
}

#[test]
fn sum_amounts_adds_from_zero() {
    assert_eq!(sum_amounts(&vec![]).unwrap(), dec("0"));
    assert_eq!(
        sum_amounts(&decs(&["16.67", "33.33"])).unwrap(),
        dec("50")
    );
}

#[test]
fn itemized_total_and_leftover() {
    let receipt = food_and_drinks();
    let (itemized, leftover) = receipt.get_itemized_total_and_leftover().unwrap();
    assert_eq!(itemized, dec("250"));
    assert_eq!(leftover, dec("50"));
}

#[test]
fn split_table_has_labels_and_rows() {
    let receipt = food_and_drinks();
    let (labels, rows) = receipt.calculate_splits().unwrap();
    assert_eq!(labels, vec!["Food", "Drinks", "<leftover>", "<total>"]);
    assert_eq!(rows.len(), 4);
    for row in rows.iter() {
        assert_eq!(row.len(), 4);
    }
    assert_eq!(rows[0], decs(&["66.67", "66.67", "66.67", "200"]));
    assert_eq!(rows[1], decs(&["25", "25", "0", "50"]));
    assert_eq!(rows[2], decs(&["18.33", "18.33", "13.33", "50"]));
    assert_eq!(rows[3], decs(&["110", "110", "80", "300"]));
}

#[test]
fn split_table_without_leftover_has_no_leftover_row() {
    let mut receipt = trio("250");
    receipt
        .add_item_split_by_ratio(
            dec("200"),
            "Food".into(),
            names(&["Alice", "Bob", "Marshall"]),
            None,
        )
        .unwrap();
    receipt
        .add_item_split_by_ratio(dec("50"), "Drinks".into(), names(&["Alice", "Bob"]), None)
        .unwrap();
    let (labels, rows) = receipt.calculate_splits().unwrap();
    assert_eq!(labels, vec!["Food", "Drinks", "<total>"]);
    assert_eq!(rows[2], decs(&["91.67", "91.67", "66.67", "250"]));
}

#[test]
fn item_rows_end_in_the_value_of_the_item() {
    let receipt = burgers_tax_and_tip();
    let (_, rows) = receipt.calculate_splits().unwrap();
    for (item, row) in receipt.items.iter().zip(rows.iter()) {
        assert_eq!(*row.last().unwrap(), item.value);
    }
}

#[test]
fn total_row_ends_near_the_total_of_the_receipt() {
    for receipt in [food_and_drinks(), burgers_tax_and_tip()] {
        let (_, rows) = receipt.calculate_splits().unwrap();
        let total = *rows.last().unwrap().last().unwrap();
        let drift = total.checked_sub(receipt.value).unwrap();
        let bound = dec("0.03");
        let low = bound.checked_add(drift).unwrap();
        let high = bound.checked_sub(drift).unwrap();
        assert!(!low.is_negative());
        assert!(!high.is_negative());
    }
}

#[test]
fn items_beyond_the_total_are_refused() {
    let mut receipt = trio("300");
    receipt
        .add_item_split_by_ratio(dec("200"), "Food".into(), names(&["Alice", "Bob"]), None)
        .unwrap();
    receipt
        .add_item_split_by_ratio(dec("110"), "Drinks".into(), names(&["Alice"]), None)
        .unwrap();
    let before = receipt.clone();
    let refused = receipt.calculate_splits();
    assert!(matches!(
        refused,
        Err(SplittingError::ItemTotalExceedsReceiptTotal(_))
    ));
    assert_eq!(
        refused.unwrap_err().message(),
        "The itemized total amount 310 exceeds the receipt's total amount 300 by -10"
    );
    assert_eq!(receipt, before);
}

#[test]
fn split_table_of_an_empty_receipt_cannot_be_worked_out() {
    let receipt = trio("300");
    let refused = receipt.calculate_splits();
    assert!(matches!(refused, Err(SplittingError::InternalError(_))));
}

#[test]
fn recalculating_twice_changes_nothing() {
    let mut receipt = burgers_tax_and_tip();
    receipt.items[2].value = dec("30");
    receipt.recalculate_proportions().unwrap();
    let once = receipt.clone();
    assert_eq!(once.items[4].share_ratio, decs(&["33.33", "16.67"]));
    receipt.recalculate_proportions().unwrap();
    assert_eq!(receipt, once);
}

#[test]
fn recalculating_refuses_what_cannot_be_represented() {
    let mut receipt = burgers_tax_and_tip();
    receipt.items[1].value = dec("0");
    receipt.items[2].value = dec("0");
    let before = receipt.clone();
    let refused = receipt.recalculate_proportions();
    assert!(matches!(refused, Err(SplittingError::InternalError(_))));
    assert_eq!(receipt, before);
}

#[test]
fn update_refuses_indices_out_of_range() {
    let mut receipt = burgers_tax_and_tip();
    let before = receipt.clone();
    let refused = receipt.update_item_at_index(5, Some(dec("1")), None, None, None);
    assert!(matches!(refused, Err(SplittingError::InvalidIndexError(_))));
    assert_eq!(receipt, before);
}

#[test]
fn update_refuses_to_take_the_last_basis_and_changes_nothing() {
    let mut receipt = trio("300");
    receipt
        .add_item_split_by_ratio(dec("30"), "Burger".into(), names(&["Alice"]), None)
        .unwrap();
    receipt
        .add_item_split_by_proportion(dec("50"), "Tax".into(), names(&["Alice", "Bob"]))
        .unwrap();
    let before = receipt.clone();
    let refused = receipt.update_item_at_index(
        0,
        Some(dec("45")),
        Some("Big Burger".into()),
        None,
        Some(true),
    );
    assert!(matches!(
        refused,
        Err(SplittingError::NotProportionallySplittableError(_))
    ));
    assert_eq!(receipt, before);
}

#[test]
fn update_sets_what_is_given() {
    let mut receipt = food_and_drinks();
    receipt
        .update_item_at_index(
            1,
            Some(dec("40")),
            Some("Juice".into()),
            Some(names(&["Marshall"])),
            None,
        )
        .unwrap();
    assert_eq!(
        receipt.items[1],
        ReceiptItem {
            value: dec("40"),
            name: "Juice".into(),
            shared_by: names(&["Marshall"]),
            share_ratio: decs(&["1"]),
            is_prop_dist: false,
        }
    );
    assert_eq!(receipt.items[0].name, "Food");
}

#[test]
fn update_to_proportional_shares_among_everyone() {
    let mut receipt = food_and_drinks();
    receipt
        .update_item_at_index(1, None, None, None, Some(true))
        .unwrap();
    assert!(receipt.items[1].is_prop_dist);
    assert_eq!(receipt.items[1].shared_by, vec!["Alice", "Bob", "Marshall"]);
    assert_eq!(
        receipt.items[1].share_ratio,
        decs(&["16.67", "16.67", "16.67"])
    );
    assert!(receipt.is_well_formed());
}

#[test]
fn update_refuses_what_cannot_be_recalculated() {
    let mut receipt = trio("300");
    receipt
        .add_item_split_by_ratio(dec("30"), "Burger".into(), names(&["Alice"]), None)
        .unwrap();
    receipt
        .add_item_split_by_proportion(dec("50"), "Tax".into(), names(&["Alice", "Bob"]))
        .unwrap();
    let before = receipt.clone();
    let refused = receipt.update_item_at_index(0, Some(dec("0")), None, None, None);
    assert!(matches!(refused, Err(SplittingError::InternalError(_))));
    assert_eq!(receipt, before);
}

#[test]
fn remove_refuses_indices_out_of_range() {
    let mut receipt = burgers_tax_and_tip();
    let before = receipt.clone();
    let refused = receipt.remove_item_at_index(5);
    assert!(matches!(refused, Err(SplittingError::InvalidIndexError(_))));
    assert_eq!(receipt, before);
}

#[test]
fn remove_refuses_to_take_the_last_basis() {
    let mut receipt = trio("300");
    receipt
        .add_item_split_by_ratio(dec("30"), "Burger".into(), names(&["Alice"]), None)
        .unwrap();
    receipt
        .add_item_split_by_proportion(dec("50"), "Tax".into(), names(&["Alice", "Bob"]))
        .unwrap();
    let before = receipt.clone();
    let refused = receipt.remove_item_at_index(0);
    assert!(matches!(
        refused,
        Err(SplittingError::NotProportionallySplittableError(_))
    ));
    assert_eq!(refused.unwrap_err().error_kind(), ErrorKind::NotProportionallySplittable);
    assert_eq!(receipt, before);
    receipt.remove_item_at_index(1).unwrap();
    receipt.remove_item_at_index(0).unwrap();
    assert!(receipt.items.is_empty());
}

#[test]
fn remove_takes_the_item_and_recalculates() {
    let mut receipt = burgers_tax_and_tip();
    receipt.remove_item_at_index(0).unwrap();
    assert_eq!(receipt.items.len(), 4);
    assert_eq!(receipt.items[0].name, "Unhealthy Burger");
    assert_eq!(receipt.items[2].share_ratio, decs(&["0", "50"]));
    assert_eq!(receipt.items[3].share_ratio, decs(&["40", "10"]));
}

#[test]
fn splittable_looks_at_the_other_items() {
    let receipt = burgers_tax_and_tip();
    assert!(receipt.is_proportionally_splittable(0));
    assert!(receipt.is_proportionally_splittable(4));
    let mut single = trio("300");
    single
        .add_item_split_by_ratio(dec("30"), "Burger".into(), names(&["Alice"]), None)
        .unwrap();
    assert!(!single.is_proportionally_splittable(0));
    assert!(single.is_proportionally_splittable(1));
}

#[test]
fn well_formed_sees_a_missing_weight() {
    let mut receipt = food_and_drinks();
    assert!(receipt.is_well_formed());
    receipt.items[0].share_ratio.pop();
    assert!(!receipt.is_well_formed());
}

#[test]
fn messages_and_kinds() {
    let error = SplittingError::InvalidIndexError("out of range".into());
    assert_eq!(error.message(), "out of range");
    assert_eq!(error.error_kind(), ErrorKind::InvalidIndex);
    assert_eq!(
        SplittingError::InternalError(String::new()).error_kind(),
        ErrorKind::Internal
    );
}
