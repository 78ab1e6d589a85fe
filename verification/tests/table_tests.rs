use comfy_table::{modifiers::UTF8_ROUND_CORNERS, presets::UTF8_FULL, Cell, Table};
use iron_abacus::decimal::Amount;
use iron_abacus::error::SplittingError;
use iron_abacus::receipt::Receipt;
use iron_abacus::table::{row_kind, RowKind};
use iron_abacus::text::strs_to_strings;

fn create_table(receipt: &Receipt) -> Result<Table, SplittingError> {
    let header = receipt.table_header("Item");
    let rows = receipt.table_rows()?;

    let mut table = Table::new();
    table
        .load_preset(UTF8_FULL)
        .apply_modifier(UTF8_ROUND_CORNERS)
        .set_header(header);

    for (idx, column) in table.column_iter_mut().enumerate() {
        if idx != 0 {
            column.set_cell_alignment(comfy_table::CellAlignment::Right);
        }
    }

    for row in rows.iter() {
        let fg_col = match row_kind(&row[0]) {
            RowKind::Total => Some(comfy_table::Color::Green),
            RowKind::Leftover => Some(comfy_table::Color::DarkGrey),
            RowKind::Item => None,
        };
        match fg_col {
            Some(colour) => {
                let row: Vec<Cell> = row.iter().map(|x| Cell::new(x).fg(colour)).collect();
                table.add_row(row);
            }
            None => {
                table.add_row(row);
            }
        }
    }

    Ok(table)
}

#[test]
fn test_create_table() {
    let mut receipt = Receipt::new(
        Amount::parse("300").unwrap(),
        vec!["Alice", "Bob", "Marshall"],
    )
    .unwrap();
    receipt
        .add_item_split_by_ratio(
            Amount::parse("200").unwrap(),
            "Food".into(),
            strs_to_strings(vec!["Alice", "Marshall", "Bob"]),
            None,
        )
        .unwrap();
    receipt
        .add_item_split_by_ratio(
            Amount::parse("50").unwrap(),
            "Drinks".into(),
            strs_to_strings(vec!["Alice", "Bob"]),
            None,
        )
        .unwrap();

    println!(
        "Receipt Item Status Before Calculating Splits:\n\n{:#?}\n\n",
        receipt.items
    );

    let mut table = create_table(&receipt).unwrap();

    table.force_no_tty();

    let expected = "
╭────────────┬────────┬────────┬──────────┬───────╮
│ Item       ┆  Alice ┆    Bob ┆ Marshall ┆ Total │
╞════════════╪════════╪════════╪══════════╪═══════╡
│ Food       ┆  66.67 ┆  66.67 ┆    66.67 ┆   200 │
├╌╌╌╌╌╌╌╌╌╌╌╌┼╌╌╌╌╌╌╌╌┼╌╌╌╌╌╌╌╌┼╌╌╌╌╌╌╌╌╌╌┼╌╌╌╌╌╌╌┤
│ Drinks     ┆     25 ┆     25 ┆        0 ┆    50 │
├╌╌╌╌╌╌╌╌╌╌╌╌┼╌╌╌╌╌╌╌╌┼╌╌╌╌╌╌╌╌┼╌╌╌╌╌╌╌╌╌╌┼╌╌╌╌╌╌╌┤
│ <leftover> ┆  18.33 ┆  18.33 ┆    13.33 ┆    50 │
├╌╌╌╌╌╌╌╌╌╌╌╌┼╌╌╌╌╌╌╌╌┼╌╌╌╌╌╌╌╌┼╌╌╌╌╌╌╌╌╌╌┼╌╌╌╌╌╌╌┤
│ <total>    ┆ 110.00 ┆ 110.00 ┆    80.00 ┆   300 │
╰────────────┴────────┴────────┴──────────┴───────╯";
    let actual = "\n".to_string() + &table.to_string();
    assert_eq!(expected, actual)
}
