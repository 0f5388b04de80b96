//! Tests of the grid pipeline: column resolution, collection, sorting and
//! CSV rendering on in-memory grids.

use excel_import::cli::{has_ods_extension, parse_args, OutputConfig};
use excel_import::csvout::to_csv_text;
use excel_import::grid::{
    collect_column_values, get_column_number, unique_sorted_values, ExtractError,
};
use excel_import::order::{sort_hashset, str_lex_leq};

fn grid(rows: &[&[&str]]) -> Vec<Vec<String>> {
    rows.iter()
        .map(|r| r.iter().map(|c| c.to_string()).collect())
        .collect()
}

fn strings(values: &[&str]) -> Vec<String> {
    values.iter().map(|v| v.to_string()).collect()
}

#[test]
fn scenario_names_column() {
    // header, three data rows with one duplicate, one row with an empty name
    let g = grid(&[
        &["Name", "Age"],
        &["Alice", "30"],
        &["Bob", "25"],
        &["Alice", "31"],
        &["", "40"],
    ]);
    let values = unique_sorted_values(&g, "Name").unwrap();
    assert_eq!(values, strings(&["Alice", "Bob"]));
    let text = to_csv_text(&values);
    assert_eq!(text, "Alice\nBob\n");
}

#[test]
fn column_not_found_names_the_column() {
    let g = grid(&[&["Name", "Age"], &["Alice", "30"]]);
    let err = unique_sorted_values(&g, "Country").unwrap_err();
    assert!(matches!(&err, ExtractError::ColumnNotFound(c) if c == "Country"));
    assert_eq!(err.message(), "Spalte 'Country' nicht gefunden.");
}

#[test]
fn empty_grid_has_no_columns() {
    let g: Vec<Vec<String>> = Vec::new();
    assert!(matches!(
        unique_sorted_values(&g, "Name"),
        Err(ExtractError::ColumnNotFound(_))
    ));
    assert_eq!(get_column_number(&g, "Name"), None);
}

#[test]
fn header_first_match_wins() {
    let g = grid(&[&["A", "Name", "Name"], &["x", "left", "right"]]);
    assert_eq!(get_column_number(&g, "Name"), Some(1));
    let values = unique_sorted_values(&g, "Name").unwrap();
    assert_eq!(values, strings(&["left"]));
}

#[test]
fn header_value_is_excluded() {
    // "Name" appears as a data value too: it is kept as data, while the
    // header occurrence itself contributes nothing
    let g = grid(&[&["Name"], &["Name"], &["Alice"]]);
    let values = unique_sorted_values(&g, "Name").unwrap();
    assert_eq!(values, strings(&["Alice", "Name"]));

    // without such a data row the header's own value never shows up
    let g2 = grid(&[&["Name"], &["Alice"]]);
    let values2 = unique_sorted_values(&g2, "Name").unwrap();
    assert_eq!(values2, strings(&["Alice"]));
}

#[test]
fn empty_column_yields_zero_records() {
    let g = grid(&[&["Name", "Age"], &["", "30"], &["", "25"]]);
    let values = unique_sorted_values(&g, "Name").unwrap();
    assert_eq!(values, Vec::<String>::new());
    assert_eq!(to_csv_text(&values), "");
}

#[test]
fn short_rows_are_skipped() {
    let g = grid(&[&["A", "B"], &["x"], &["y", "kept"], &[]]);
    let values = unique_sorted_values(&g, "B").unwrap();
    assert_eq!(values, strings(&["kept"]));
}

#[test]
fn no_value_appears_twice() {
    let g = grid(&[&["V"], &["b"], &["a"], &["b"], &["c"], &["a"], &["c"]]);
    let values = unique_sorted_values(&g, "V").unwrap();
    assert_eq!(values, strings(&["a", "b", "c"]));
}

#[test]
fn output_is_sorted_by_bytes() {
    let g = grid(&[&["V"], &["apple"], &["Zebra"], &["banana"], &["Ape"]]);
    let values = unique_sorted_values(&g, "V").unwrap();
    // byte order puts upper-case letters first
    assert_eq!(values, strings(&["Ape", "Zebra", "apple", "banana"]));
}

#[test]
fn running_twice_gives_identical_text() {
    let g = grid(&[&["V"], &["b"], &["a"], &["b"]]);
    let first = to_csv_text(&unique_sorted_values(&g, "V").unwrap());
    let second = to_csv_text(&unique_sorted_values(&g, "V").unwrap());
    assert_eq!(first, second);
}

#[test]
fn collect_keeps_scan_order_and_sort_orders() {
    let g = grid(&[&["V"], &["b"], &["a"]]);
    let collected = collect_column_values(&g, 0);
    assert_eq!(collected, strings(&["b", "a"]));
    let sorted = sort_hashset(collected);
    assert_eq!(sorted, strings(&["a", "b"]));
}

#[test]
fn sort_hashset_sorts_lexicographically() {
    let sorted = sort_hashset(strings(&["pear", "fig", "apple", "figure"]));
    assert_eq!(sorted, strings(&["apple", "fig", "figure", "pear"]));
    assert_eq!(sort_hashset(Vec::new()), Vec::<String>::new());
}

#[test]
fn str_lex_leq_orders_prefixes_first() {
    assert!(str_lex_leq("", "a"));
    assert!(str_lex_leq("abc", "abd"));
    assert!(str_lex_leq("ab", "abc"));
    assert!(!str_lex_leq("abc", "ab"));
    assert!(str_lex_leq("same", "same"));
}

#[test]
fn csv_quotes_only_where_needed() {
    let text = to_csv_text(&strings(&["plain", "with,comma", "with\nnewline", "with\rreturn"]));
    assert_eq!(
        text,
        "plain\n\"with,comma\"\n\"with\nnewline\"\n\"with\rreturn\"\n"
    );
}

#[test]
fn csv_doubles_inner_quotes() {
    let text = to_csv_text(&strings(&["say \"hi\""]));
    assert_eq!(text, "\"say \"\"hi\"\"\"\n");
}

#[test]
fn sheet_not_found_message_names_the_sheet() {
    let err = ExtractError::SheetNotFound("Sheet2".to_string());
    assert_eq!(err.message(), "Arbeitsblatt 'Sheet2' nicht gefunden.");
}

#[test]
fn ods_extension_is_exact() {
    assert!(has_ods_extension("report.ods"));
    assert!(has_ods_extension("dir/report.tar.ods"));
    assert!(!has_ods_extension("report.xlsx"));
    assert!(!has_ods_extension("report"));
    assert!(!has_ods_extension("report.ODS"));
    // a hidden file named ".ods" has no extension
    assert!(!has_ods_extension(".ods"));
    assert!(!has_ods_extension("dir/.ods"));
}

#[test]
fn output_path_defaults_to_fixed_name() {
    assert_eq!(OutputConfig::default().output_path, "output.csv");
}

#[test]
fn wrong_argument_count_is_rejected() {
    let two = strings(&["prog", "input.xlsx"]);
    assert_eq!(parse_args(&two), None);
    let five = strings(&["prog", "a", "b", "c", "d"]);
    assert_eq!(parse_args(&five), None);
    let four = strings(&["prog", "input.xlsx", "Sheet1", "Name"]);
    assert_eq!(
        parse_args(&four),
        Some((
            "input.xlsx".to_string(),
            "Sheet1".to_string(),
            "Name".to_string()
        ))
    );
}
