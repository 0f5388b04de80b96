//! Tests of the workbook layer against real `calamine` ranges.

use calamine::{Data, Range};
use excel_import::cli::{extract_csv, read_unique_values};
use excel_import::grid::ExtractError;
use excel_import::workbook::{
    range_to_grid, read_unique_values_from_range, read_unique_values_ods, read_unique_values_xlsx,
};

fn names_and_ages() -> Range<Data> {
    let mut r: Range<Data> = Range::new((0, 0), (4, 1));
    r.set_value((0, 0), Data::String("Name".to_string()));
    r.set_value((0, 1), Data::String("Age".to_string()));
    r.set_value((1, 0), Data::String("Alice".to_string()));
    r.set_value((1, 1), Data::Int(30));
    r.set_value((2, 0), Data::String("Bob".to_string()));
    r.set_value((2, 1), Data::Int(25));
    r.set_value((3, 0), Data::String("Alice".to_string()));
    r.set_value((3, 1), Data::Int(31));
    r.set_value((4, 1), Data::Int(40));
    r
}

#[test]
fn range_cells_are_stringified() {
    let mut r: Range<Data> = Range::new((0, 0), (1, 2));
    r.set_value((0, 0), Data::String("text".to_string()));
    r.set_value((0, 1), Data::Int(7));
    r.set_value((0, 2), Data::Bool(true));
    r.set_value((1, 0), Data::Float(2.5));
    let grid = range_to_grid(&r);
    assert_eq!(grid.len(), 2);
    assert_eq!(grid[0], vec!["text", "7", "true"]);
    assert_eq!(grid[1], vec!["2.5", "", ""]);
}

#[test]
fn scenario_names_column_from_range() {
    let r = names_and_ages();
    let mut values = read_unique_values_from_range(&r, "Name").unwrap();
    values.sort();
    assert_eq!(values, vec!["Alice".to_string(), "Bob".to_string()]);
}

#[test]
fn missing_column_in_range_is_reported() {
    let r = names_and_ages();
    let err = read_unique_values_from_range(&r, "Country").unwrap_err();
    assert!(matches!(&err, ExtractError::ColumnNotFound(c) if c == "Country"));
}

#[test]
fn empty_range_has_no_header() {
    let r: Range<Data> = Range::default();
    assert!(matches!(
        read_unique_values_from_range(&r, "Name"),
        Err(ExtractError::ColumnNotFound(_))
    ));
}

#[test]
fn unreadable_xlsx_container_fails_to_open() {
    let err = read_unique_values_xlsx("no_such_file.xlsx", "Sheet1", "Name").unwrap_err();
    assert!(matches!(err, ExtractError::Open(_)));
}

#[test]
fn unreadable_ods_container_fails_to_open() {
    let err = read_unique_values_ods("no_such_file.ods", "Sheet1", "Name").unwrap_err();
    assert!(matches!(err, ExtractError::Open(_)));
}

#[test]
fn dispatch_reaches_both_parsers() {
    // either path fails at open, but each through its own format's parser
    assert!(matches!(
        read_unique_values("missing.ods", "Sheet1", "Name"),
        Err(ExtractError::Open(_))
    ));
    assert!(matches!(
        read_unique_values("missing.xlsx", "Sheet1", "Name"),
        Err(ExtractError::Open(_))
    ));
    assert!(matches!(
        extract_csv("missing.xlsx", "Sheet1", "Name"),
        Err(ExtractError::Open(_))
    ));
}
