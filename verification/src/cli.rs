//! The run as the command line sees it: argument shape, format selection by
//! file extension, and the whole extraction pipeline from path to CSV text.

use vstd::prelude::*;

verus! {

use vstd::string::StrSliceExecFns;
use crate::grid::{ExtractError, is_extraction, is_unique_collection};
use crate::csvout::csv_text;
use crate::order::views_of;

/// Where a run's rendered records go. The single recognized option is the
/// output path; left alone, it is `output.csv` in the working directory.
pub struct OutputConfig {
    pub output_path: String,
}

impl Default for OutputConfig {
    fn default() -> (r: Self)
        ensures
            r.output_path@ == "output.csv"@,
    {
        OutputConfig { output_path: "output.csv".to_owned() }
    }
}

/// Whether a path carries the `.ods` extension, as the path's final
/// component determines it: the component ends in `.ods` and has at least
/// one character before the dot (a component that is all `.ods` is a hidden
/// file without an extension).
pub open spec fn is_ods_path(path: Seq<char>) -> bool {
    &&& path.len() >= 5
    &&& path.subrange(path.len() - 4, path.len() as int) == ".ods"@
    &&& path[path.len() - 5] != '/'
}

/// Decides `is_ods_path`. Any other path, extension or none, selects the
/// primary format.
pub fn has_ods_extension(path: &str) -> (r: bool)
    ensures
        r == is_ods_path(path@),
{
    proof {
        reveal_strlit(".ods");
    }
    let n = path.unicode_len();
    if n < 5 {
        return false;
    }
    let matches_ods = path.get_char(n - 4) == '.' && path.get_char(n - 3) == 'o' && path.get_char(
        n - 2,
    ) == 'd' && path.get_char(n - 1) == 's' && path.get_char(n - 5) != '/';
    proof {
        let p = path@;
        let len = p.len() as int;
        if matches_ods {
            assert(p.subrange(len - 4, len) =~= ".ods"@);
        } else {
            if is_ods_path(p) {
                assert(p.subrange(len - 4, len)[0] == p[len - 4]);
                assert(p.subrange(len - 4, len)[1] == p[len - 3]);
                assert(p.subrange(len - 4, len)[2] == p[len - 2]);
                assert(p.subrange(len - 4, len)[3] == p[len - 1]);
                assert(false);
            }
        }
    }
    matches_ods
}

/// Reads the command line: exactly three values after the program name (the
/// input path, the sheet name, the column name), or nothing.
pub fn parse_args(args: &Vec<String>) -> (r: Option<(String, String, String)>)
    ensures
        match r {
            Some(t) => args@.len() == 4 && t.0@ == args@[1]@ && t.1@ == args@[2]@ && t.2@
                == args@[3]@,
            None => args@.len() != 4,
        },
{
    if args.len() != 4 {
        return None;
    }
    Some((args[1].clone(), args[2].clone(), args[3].clone()))
}

/// Collects the distinct non-empty values of the named column of the named
/// sheet, choosing the parser by the path's extension: `.ods` selects the
/// alternate format, everything else the primary one. Each failure names its
/// subject.
pub fn read_unique_values(path: &str, sheet_name: &str, column_name: &str) -> (r: Result<
    Vec<String>,
    ExtractError,
>)
    ensures
        match r {
            Ok(values) => exists|g: Seq<Seq<Seq<char>>>|
                is_unique_collection(g, column_name@, views_of(values@)),
            Err(e) => match e {
                ExtractError::Open(_) => true,
                ExtractError::SheetNotFound(s) => s@ == sheet_name@,
                ExtractError::ColumnNotFound(c) => c@ == column_name@,
            },
        },
{
    if has_ods_extension(path) {
        crate::workbook::read_unique_values_ods(path, sheet_name, column_name)
    } else {
        crate::workbook::read_unique_values_xlsx(path, sheet_name, column_name)
    }
}

/// The whole run on one file: load, resolve, collect, sort, render. On
/// success the text holds one CSV record per distinct non-empty column
/// value, in ascending lexicographic order; each failure names its subject.
pub fn extract_csv(path: &str, sheet_name: &str, column_name: &str) -> (r: Result<
    String,
    ExtractError,
>)
    ensures
        match r {
            Ok(text) => exists|g: Seq<Seq<Seq<char>>>, out: Seq<Seq<char>>|
                is_extraction(g, column_name@, out) && text@ == csv_text(out),
            Err(e) => match e {
                ExtractError::Open(_) => true,
                ExtractError::SheetNotFound(s) => s@ == sheet_name@,
                ExtractError::ColumnNotFound(c) => c@ == column_name@,
            },
        },
{
    match read_unique_values(path, sheet_name, column_name) {
        Ok(values) => {
            let sorted = crate::order::sort_hashset(values);
            let text = crate::csvout::to_csv_text(&sorted);
            proof {
                let g = choose|g: Seq<Seq<Seq<char>>>|
                    is_unique_collection(g, column_name@, views_of(values@));
                crate::grid::lemma_multiset_carries_unique_set(
                    views_of(values@),
                    views_of(sorted@),
                );
                let c = choose|c: int|
                    #[trigger] crate::grid::header_match_at(g[0], column_name@, c) && views_of(
                        values@,
                    ).to_set() == crate::grid::column_values(g, c);
                assert(crate::grid::header_match_at(g[0], column_name@, c) && views_of(
                    sorted@,
                ).to_set() == crate::grid::column_values(g, c));
                assert(is_extraction(g, column_name@, views_of(sorted@)));
            }
            Ok(text)
        },
        Err(e) => Err(e),
    }
}

} // verus!
