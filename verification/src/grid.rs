//! The sheet grid model: resolving a column by its header cell and collecting
//! the unique non-empty values of that column.
//!
//! A sheet is modelled as a grid of stringified cells, row 0 being the header
//! row. The collected result is the set of non-empty values appearing in the
//! resolved column in the data rows (row index 1 and beyond); a row too short
//! to hold the column is skipped.

use vstd::prelude::*;

verus! {

use vstd::relations::sorted_by;
use vstd::string::StringExecFns;
use crate::order::{lex_leq_fn, views_of, lemma_sorted_unique_values};

/// The character grid of a vector-of-rows sheet.
pub open spec fn grid_views(g: Seq<Vec<String>>) -> Seq<Seq<Seq<char>>> {
    Seq::new(g.len(), |i: int| views_of(g[i]@))
}

/// The header cell at `i` is the first one that equals `name`.
pub open spec fn header_match_at(header: Seq<Seq<char>>, name: Seq<char>, i: int) -> bool {
    &&& 0 <= i < header.len()
    &&& header[i] == name
    &&& forall|j: int| 0 <= j < i ==> header[j] != name
}

/// Some header cell equals `name`.
pub open spec fn header_has_column(header: Seq<Seq<char>>, name: Seq<char>) -> bool {
    exists|i: int| header_match_at(header, name, i)
}

/// The set of non-empty values of column `col` in the data rows of `grid`
/// (the header row does not contribute; a row without the column is skipped).
pub open spec fn column_values_upto(grid: Seq<Seq<Seq<char>>>, col: int, upto: int) -> Set<
    Seq<char>,
> {
    Set::new(
        |v: Seq<char>|
            v.len() > 0 && exists|i: int|
                1 <= i < upto && col < #[trigger] grid[i].len() && grid[i][col] == v,
    )
}

/// The set of non-empty values of column `col` over all data rows.
pub open spec fn column_values(grid: Seq<Seq<Seq<char>>>, col: int) -> Set<Seq<char>> {
    column_values_upto(grid, col, grid.len() as int)
}

/// One failure of a run: the container could not be opened, the requested
/// sheet is missing (or unreadable), or no header cell equals the requested
/// column name. Each of the latter two carries the requested name.
#[derive(Debug)]
pub enum ExtractError {
    Open(String),
    SheetNotFound(String),
    ColumnNotFound(String),
}

impl ExtractError {
    /// The diagnostic line reported for this failure.
    pub open spec fn spec_message(&self) -> Seq<char> {
        match self {
            ExtractError::Open(detail) => detail@,
            ExtractError::SheetNotFound(name) => "Arbeitsblatt '"@ + name@
                + "' nicht gefunden."@,
            ExtractError::ColumnNotFound(name) => "Spalte '"@ + name@ + "' nicht gefunden."@,
        }
    }

    /// Renders the diagnostic line for this failure.
    pub fn message(&self) -> (r: String)
        ensures
            r@ == self.spec_message(),
    {
        match self {
            ExtractError::Open(detail) => detail.clone(),
            ExtractError::SheetNotFound(name) => {
                let mut m = "Arbeitsblatt '".to_owned();
                m.append(name.as_str());
                m.append("' nicht gefunden.");
                m
            },
            ExtractError::ColumnNotFound(name) => {
                let mut m = "Spalte '".to_owned();
                m.append(name.as_str());
                m.append("' nicht gefunden.");
                m
            },
        }
    }
}

/// Resolves a column name to the index of the first header cell that equals
/// it; `None` when the grid has no rows or no header cell matches.
pub fn get_column_number(grid: &Vec<Vec<String>>, column_name: &str) -> (r: Option<usize>)
    ensures
        match r {
            Some(i) => grid@.len() > 0 && header_match_at(
                grid_views(grid@)[0],
                column_name@,
                i as int,
            ),
            None => grid@.len() == 0 || !header_has_column(grid_views(grid@)[0], column_name@),
        },
{
    if grid.len() == 0 {
        return None;
    }
    let header: &Vec<String> = &grid[0];
    let target: String = column_name.to_owned();
    let mut j: usize = 0;
    while j < header.len()
        invariant
            j <= header@.len(),
            target@ == column_name@,
            header@ == grid@[0]@,
            grid@.len() > 0,
            forall|k: int| 0 <= k < j ==> views_of(header@)[k] != column_name@,
        decreases header@.len() - j,
    {
        if header[j] == target {
            assert(header_match_at(grid_views(grid@)[0], column_name@, j as int));
            return Some(j);
        }
        j = j + 1;
    }
    assert forall|i: int| !header_match_at(grid_views(grid@)[0], column_name@, i) by {
        if 0 <= i < header@.len() {
            assert(views_of(header@)[i] != column_name@);
        }
    }
    None
}

/// Does some entry of `v` hold the same characters as `s`?
fn contains_string(v: &Vec<String>, s: &String) -> (r: bool)
    ensures
        r == views_of(v@).contains(s@),
{
    let mut i: usize = 0;
    while i < v.len()
        invariant
            i <= v@.len(),
            forall|k: int| 0 <= k < i ==> views_of(v@)[k] != s@,
        decreases v@.len() - i,
    {
        if v[i] == *s {
            assert(views_of(v@)[i as int] == s@);
            return true;
        }
        i = i + 1;
    }
    assert forall|k: int| 0 <= k < views_of(v@).len() implies views_of(v@)[k] != s@ by {}
    false
}

/// Collects the distinct non-empty values of column `col` from the data rows.
pub fn collect_column_values(grid: &Vec<Vec<String>>, col: usize) -> (r: Vec<String>)
    ensures
        views_of(r@).no_duplicates(),
        views_of(r@).to_set() == column_values(grid_views(grid@), col as int),
{
    let mut out: Vec<String> = Vec::new();
    let mut i: usize = 1;
    assert(views_of(out@).to_set() =~= column_values_upto(grid_views(grid@), col as int, 1));
    while i < grid.len()
        invariant
            1 <= i <= grid@.len() || (grid@.len() < 1 && i == 1),
            views_of(out@).no_duplicates(),
            views_of(out@).to_set() == column_values_upto(
                grid_views(grid@),
                col as int,
                i as int,
            ),
        decreases grid@.len() - i,
    {
        let ghost pre = out@;
        let ghost g = grid_views(grid@);
        let row: &Vec<String> = &grid[i];
        if col < row.len() {
            let value: String = row[col].clone();
            if !value.as_str().is_empty() {
                if !contains_string(&out, &value) {
                    out.push(value);
                    proof {
                        broadcast use vstd::prelude::Seq::lemma_push_to_set_commute;

                        assert(views_of(out@) =~= views_of(pre).push(value@));
                        assert(views_of(out@).no_duplicates());
                    }
                }
            }
        }
        proof {
            let post = views_of(out@);
            assert(post.to_set() =~= column_values_upto(g, col as int, i + 1)) by {
                assert forall|v: Seq<char>| post.to_set().contains(v) implies column_values_upto(
                    g,
                    col as int,
                    i + 1,
                ).contains(v) by {
                    if column_values_upto(g, col as int, i as int).contains(v) {
                    } else {
                        // the value added this round comes from row i
                        assert(col < g[i as int].len() && g[i as int][col as int] == v);
                    }
                }
                assert forall|v: Seq<char>|
                    column_values_upto(g, col as int, i + 1).contains(v) implies post.to_set()
                    .contains(v) by {
                    let r = choose|r: int|
                        1 <= r < i + 1 && col < #[trigger] g[r].len() && g[r][col as int] == v;
                    if r < i {
                        assert(column_values_upto(g, col as int, i as int).contains(v));
                        assert(views_of(pre).to_set().contains(v));
                    }
                }
            }
        }
        i = i + 1;
    }
    proof {
        if grid@.len() < 1 {
            assert(views_of(out@).to_set() =~= column_values(grid_views(grid@), col as int));
        }
    }
    out
}

/// The collection relation: `vals` holds, free of duplicates, exactly the
/// distinct non-empty data-row values of the column of `grid` whose header
/// cell first equals `name`, in no particular order.
pub open spec fn is_unique_collection(
    grid: Seq<Seq<Seq<char>>>,
    name: Seq<char>,
    vals: Seq<Seq<char>>,
) -> bool {
    &&& grid.len() > 0
    &&& header_has_column(grid[0], name)
    &&& vals.no_duplicates()
    &&& exists|c: int|
        #[trigger] header_match_at(grid[0], name, c) && vals.to_set() == column_values(grid, c)
}

/// The full extraction relation: `out` holds exactly the distinct non-empty
/// data-row values of the column of `grid` whose header cell first equals
/// `name`, in ascending lexicographic order.
pub open spec fn is_extraction(
    grid: Seq<Seq<Seq<char>>>,
    name: Seq<char>,
    out: Seq<Seq<char>>,
) -> bool {
    &&& is_unique_collection(grid, name, out)
    &&& sorted_by(out, lex_leq_fn())
}

/// A sequence with the same multiset as a duplicate-free one is itself
/// duplicate-free and holds the same set of values.
pub proof fn lemma_multiset_carries_unique_set(a: Seq<Seq<char>>, b: Seq<Seq<char>>)
    requires
        a.no_duplicates(),
        a.to_multiset() == b.to_multiset(),
    ensures
        b.no_duplicates(),
        a.to_set() == b.to_set(),
{
    broadcast use vstd::seq_lib::group_to_multiset_ensures;
    broadcast use vstd::multiset::group_multiset_axioms;

    a.lemma_multiset_has_no_duplicates();
    b.lemma_multiset_has_no_duplicates_conv();
    assert forall|x: Seq<char>| a.to_set().contains(x) <==> b.to_set().contains(x) by {
        assert(a.contains(x) <==> a.to_multiset().count(x) > 0);
        assert(b.contains(x) <==> b.to_multiset().count(x) > 0);
    }
    assert(a.to_set() =~= b.to_set());
}

/// Resolves the column and returns its distinct non-empty data-row values in
/// sorted order; fails exactly when the grid has no rows or no header cell
/// equals the requested name, naming that column.
pub fn unique_sorted_values(grid: &Vec<Vec<String>>, column_name: &str) -> (r: Result<
    Vec<String>,
    ExtractError,
>)
    ensures
        match r {
            Ok(values) => is_extraction(grid_views(grid@), column_name@, views_of(values@)),
            Err(e) => {
                &&& grid@.len() == 0 || !header_has_column(grid_views(grid@)[0], column_name@)
                &&& e matches ExtractError::ColumnNotFound(c) && c@ == column_name@
            },
        },
{
    match get_column_number(grid, column_name) {
        Some(col) => {
            let collected = collect_column_values(grid, col);
            let sorted = crate::order::sort_hashset(collected);
            proof {
                lemma_multiset_carries_unique_set(views_of(collected@), views_of(sorted@));
                assert(header_match_at(grid_views(grid@)[0], column_name@, col as int));
            }
            Ok(sorted)
        },
        None => Err(ExtractError::ColumnNotFound(column_name.to_owned())),
    }
}

/// The rendered sequence is a function of the grid and the column name alone:
/// any two results of the extraction on the same inputs are equal, however
/// the values were discovered. With the records written in order, two runs on
/// identical inputs therefore produce identical output text.
pub proof fn lemma_extraction_deterministic(
    grid: Seq<Seq<Seq<char>>>,
    name: Seq<char>,
    out1: Seq<Seq<char>>,
    out2: Seq<Seq<char>>,
)
    requires
        is_extraction(grid, name, out1),
        is_extraction(grid, name, out2),
    ensures
        out1 == out2,
{
    let c1 = choose|c: int|
        #[trigger] header_match_at(grid[0], name, c) && out1.to_set() == column_values(grid, c);
    let c2 = choose|c: int|
        #[trigger] header_match_at(grid[0], name, c) && out2.to_set() == column_values(grid, c);
    assert(c1 == c2) by {
        if c1 < c2 {
            assert(grid[0][c1] == name);
        } else if c2 < c1 {
            assert(grid[0][c2] == name);
        }
    }
    lemma_sorted_unique_values(out1, out2);
}

/// Only the data rows contribute values: a value that appears in no data-row
/// cell of the resolved column is not in the output, even when it is the
/// header cell's own value (as the requested column name always is).
pub proof fn lemma_only_data_rows_contribute(
    grid: Seq<Seq<Seq<char>>>,
    name: Seq<char>,
    c: int,
    out: Seq<Seq<char>>,
    v: Seq<char>,
)
    requires
        is_extraction(grid, name, out),
        header_match_at(grid[0], name, c),
        forall|i: int| 1 <= i < grid.len() && c < #[trigger] grid[i].len() ==> grid[i][c] != v,
    ensures
        !out.contains(v),
{
    let c0 = choose|cc: int|
        #[trigger] header_match_at(grid[0], name, cc) && out.to_set() == column_values(grid, cc);
    assert(c0 == c) by {
        if c0 < c {
            assert(grid[0][c0] == name);
        } else if c < c0 {
            assert(grid[0][c] == name);
        }
    }
    if out.contains(v) {
        assert(out.to_set().contains(v));
        assert(column_values(grid, c).contains(v));
        assert(false);
    }
}

/// A column whose data-row cells are all empty contributes no values: the
/// extraction of such a column is the empty sequence.
pub proof fn lemma_empty_column_yields_nothing(
    grid: Seq<Seq<Seq<char>>>,
    name: Seq<char>,
    c: int,
    out: Seq<Seq<char>>,
)
    requires
        is_extraction(grid, name, out),
        header_match_at(grid[0], name, c),
        forall|i: int|
            1 <= i < grid.len() && c < #[trigger] grid[i].len() ==> grid[i][c].len() == 0,
    ensures
        out.len() == 0,
{
    let c0 = choose|cc: int|
        #[trigger] header_match_at(grid[0], name, cc) && out.to_set() == column_values(grid, cc);
    assert(c0 == c) by {
        if c0 < c {
            assert(grid[0][c0] == name);
        } else if c < c0 {
            assert(grid[0][c] == name);
        }
    }
    assert(column_values(grid, c) =~= Set::<Seq<char>>::empty());
    if out.len() > 0 {
        assert(out.to_set().contains(out[0]));
    }
}

} // verus!
