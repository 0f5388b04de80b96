//! Reading a sheet out of a spreadsheet container through the `calamine`
//! crate, as a grid of stringified cells.
//!
//! The contents of an opened `calamine::Range` are named by the
//! uninterpreted `grid_of`; the accessor wrappers below state, against that
//! name, what the crate's accessors return, and everything past them is
//! verified against the grid model.

use vstd::prelude::*;

verus! {

use crate::grid::{
    ExtractError,
    grid_views,
    is_unique_collection,
    header_has_column,
    get_column_number,
    collect_column_values,
};
use crate::order::views_of;

/// `calamine`'s cell value, opaque here; only its display form is read.
#[verifier::external_type_specification]
#[verifier::external_body]
pub struct ExData(calamine::Data);

/// `calamine`'s rectangular grid of cells, opaque here.
#[verifier::external_type_specification]
#[verifier::external_body]
#[verifier::reject_recursive_types(T)]
pub struct ExRange<T>(calamine::Range<T>);

/// The contents of an opened range: its cells row by row, each cell as the
/// characters of its display form (an empty cell as the empty string).
pub uninterp spec fn grid_of(r: calamine::Range<calamine::Data>) -> Seq<Seq<Seq<char>>>;

/// How loading a sheet can fail: the container could not be opened or parsed
/// (with the parser's diagnostic text), or the sheet was not found.
enum LoadFailure {
    Open(String),
    Sheet,
}

/// Relies on `calamine::open_workbook` for the `Xlsx` format and on
/// `calamine::Reader::worksheet_range`: opening fails on an unreadable or
/// invalid container; the lookup fails when the workbook has no sheet of the
/// requested name (or that sheet cannot be read).
#[verifier::external_body]
fn open_sheet_xlsx(path: &str, sheet_name: &str) -> (r: Result<
    calamine::Range<calamine::Data>,
    LoadFailure,
>) {
    let mut workbook: calamine::Xlsx<_> = match calamine::open_workbook(path) {
        Ok(w) => w,
        Err(e) => {
            return Err(LoadFailure::Open(format!("{}", e)));
        },
    };
    match calamine::Reader::worksheet_range(&mut workbook, sheet_name) {
        Ok(range) => Ok(range),
        Err(_) => Err(LoadFailure::Sheet),
    }
}

/// Relies on `calamine::open_workbook` for the `Ods` format and on
/// `calamine::Reader::worksheet_range`, as the `Xlsx` counterpart does.
#[verifier::external_body]
fn open_sheet_ods(path: &str, sheet_name: &str) -> (r: Result<
    calamine::Range<calamine::Data>,
    LoadFailure,
>) {
    let mut workbook: calamine::Ods<_> = match calamine::open_workbook(path) {
        Ok(w) => w,
        Err(e) => {
            return Err(LoadFailure::Open(format!("{}", e)));
        },
    };
    match calamine::Reader::worksheet_range(&mut workbook, sheet_name) {
        Ok(range) => Ok(range),
        Err(_) => Err(LoadFailure::Sheet),
    }
}

/// Relies on `calamine::Range::height`: the number of rows of the range.
#[verifier::external_body]
fn range_height(r: &calamine::Range<calamine::Data>) -> (n: usize)
    ensures
        n == grid_of(*r).len(),
{
    r.height()
}

/// Relies on `calamine::Range::width`: a range is rectangular, so every one
/// of its rows holds this many cells.
#[verifier::external_body]
fn range_width(r: &calamine::Range<calamine::Data>) -> (n: usize)
    ensures
        forall|i: int| 0 <= i < grid_of(*r).len() ==> (#[trigger] grid_of(*r)[i]).len() == n,
{
    r.width()
}

/// Relies on `calamine::Range::get` and the display form of
/// `calamine::Data`: the cell at a relative position inside the range,
/// stringified. The position is inside the range, so `get` returns a cell.
#[verifier::external_body]
fn range_cell(r: &calamine::Range<calamine::Data>, row: usize, col: usize) -> (s: String)
    requires
        row < grid_of(*r).len(),
        col < grid_of(*r)[row as int].len(),
    ensures
        s@ == grid_of(*r)[row as int][col as int],
{
    r.get((row, col)).unwrap().to_string()
}

/// Reads the whole range into a grid of stringified cells.
pub fn range_to_grid(r: &calamine::Range<calamine::Data>) -> (grid: Vec<Vec<String>>)
    ensures
        grid_views(grid@) == grid_of(*r),
{
    let height = range_height(r);
    let width = range_width(r);
    let mut grid: Vec<Vec<String>> = Vec::new();
    let mut i: usize = 0;
    while i < height
        invariant
            i <= height,
            height == grid_of(*r).len(),
            forall|k: int| 0 <= k < height ==> (#[trigger] grid_of(*r)[k]).len() == width,
            grid@.len() == i,
            forall|k: int| 0 <= k < i ==> #[trigger] grid_views(grid@)[k] == grid_of(*r)[k],
        decreases height - i,
    {
        let ghost pre = grid@;
        let mut row: Vec<String> = Vec::new();
        let mut j: usize = 0;
        while j < width
            invariant
                j <= width,
                i < height,
                height == grid_of(*r).len(),
                grid_of(*r)[i as int].len() == width,
                row@.len() == j,
                forall|t: int| 0 <= t < j ==> #[trigger] views_of(row@)[t] == grid_of(*r)[i as int][t],
            decreases width - j,
        {
            let ghost pre_row = row@;
            let s = range_cell(r, i, j);
            row.push(s);
            proof {
                assert forall|t: int| 0 <= t < j + 1 implies #[trigger] views_of(row@)[t]
                    == grid_of(*r)[i as int][t] by {
                    if t < j {
                        assert(views_of(pre_row)[t] == grid_of(*r)[i as int][t]);
                        assert(row@[t] == pre_row[t]);
                    } else {
                        assert(row@[t] == s);
                    }
                }
            }
            j = j + 1;
        }
        proof {
            assert(views_of(row@) =~= grid_of(*r)[i as int]);
        }
        grid.push(row);
        proof {
            assert forall|k: int| 0 <= k < i + 1 implies #[trigger] grid_views(grid@)[k]
                == grid_of(*r)[k] by {
                if k < i {
                    assert(grid_views(pre)[k] == grid_of(*r)[k]);
                    assert(grid@[k] == pre[k]);
                }
            }
        }
        i = i + 1;
    }
    proof {
        assert(grid_views(grid@) =~= grid_of(*r));
    }
    grid
}

/// Resolves the column in an opened range and collects the distinct
/// non-empty values of its data rows; fails exactly when the range has no
/// rows or no header cell equals the requested name, naming that column.
pub fn read_unique_values_from_range(
    range: &calamine::Range<calamine::Data>,
    column_name: &str,
) -> (r: Result<Vec<String>, ExtractError>)
    ensures
        match r {
            Ok(values) => is_unique_collection(grid_of(*range), column_name@, views_of(values@)),
            Err(e) => {
                &&& grid_of(*range).len() == 0 || !header_has_column(
                    grid_of(*range)[0],
                    column_name@,
                )
                &&& e matches ExtractError::ColumnNotFound(c) && c@ == column_name@
            },
        },
{
    let grid = range_to_grid(range);
    match get_column_number(&grid, column_name) {
        Some(col) => {
            let values = collect_column_values(&grid, col);
            Ok(values)
        },
        None => Err(ExtractError::ColumnNotFound(column_name.to_owned())),
    }
}

/// Opens the workbook at `path` as the primary (`Xlsx`) format and collects
/// the distinct non-empty values of the named column of the named sheet,
/// unordered. Each failure names its subject.
pub fn read_unique_values_xlsx(path: &str, sheet_name: &str, column_name: &str) -> (r: Result<
    Vec<String>,
    ExtractError,
>)
    ensures
        match r {
            Ok(values) => exists|g: Seq<Seq<Seq<char>>>|
                is_unique_collection(g, column_name@, views_of(values@)),
            Err(e) => match e {
                ExtractError::Open(_) => true,
                ExtractError::SheetNotFound(s) => s@ == sheet_name@,
                ExtractError::ColumnNotFound(c) => c@ == column_name@,
            },
        },
{
    match open_sheet_xlsx(path, sheet_name) {
        Ok(range) => {
            match read_unique_values_from_range(&range, column_name) {
                Ok(values) => {
                    proof {
                        assert(is_unique_collection(
                            grid_of(range),
                            column_name@,
                            views_of(values@),
                        ));
                    }
                    Ok(values)
                },
                Err(e) => Err(e),
            }
        },
        Err(LoadFailure::Open(detail)) => Err(ExtractError::Open(detail)),
        Err(LoadFailure::Sheet) => Err(ExtractError::SheetNotFound(sheet_name.to_owned())),
    }
}

/// Opens the workbook at `path` as the alternate (`Ods`) format; the sheet
/// and column semantics are those of the `Xlsx` counterpart.
pub fn read_unique_values_ods(path: &str, sheet_name: &str, column_name: &str) -> (r: Result<
    Vec<String>,
    ExtractError,
>)
    ensures
        match r {
            Ok(values) => exists|g: Seq<Seq<Seq<char>>>|
                is_unique_collection(g, column_name@, views_of(values@)),
            Err(e) => match e {
                ExtractError::Open(_) => true,
                ExtractError::SheetNotFound(s) => s@ == sheet_name@,
                ExtractError::ColumnNotFound(c) => c@ == column_name@,
            },
        },
{
    match open_sheet_ods(path, sheet_name) {
        Ok(range) => {
            match read_unique_values_from_range(&range, column_name) {
                Ok(values) => {
                    proof {
                        assert(is_unique_collection(
                            grid_of(range),
                            column_name@,
                            views_of(values@),
                        ));
                    }
                    Ok(values)
                },
                Err(e) => Err(e),
            }
        },
        Err(LoadFailure::Open(detail)) => Err(ExtractError::Open(detail)),
        Err(LoadFailure::Sheet) => Err(ExtractError::SheetNotFound(sheet_name.to_owned())),
    }
}

} // verus!
