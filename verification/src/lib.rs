//! Extracts the unique, non-empty values of a named column from a named sheet
//! of a spreadsheet file and renders them, sorted, as single-field CSV records.

pub mod order;
pub mod grid;
pub mod csvout;
pub mod workbook;
pub mod cli;
