//! The spreadsheet grid model.
//!
//! A grid is an ordered sequence of rows of typed cells, read-only input
//! owned by the caller. Numeric cells carry their value in hundredths, so
//! a price cell holds minor currency units directly and a quantity cell
//! holds hundredths of a unit. Text cells that spell a decimal number count
//! as numeric wherever a number is expected, as spreadsheet readers treat
//! them.

use vstd::prelude::*;

verus! {

use crate::errors::InputError;
use crate::numbers::hundredths_chars;
use crate::numbers::hundredths_to_string;
use crate::numbers::parse_hundredths;
use crate::numbers::parse_hundredths_spec;

/// One spreadsheet cell: text, a number in hundredths of a unit, or empty.
pub enum Cell {
    Text(String),
    Number(i64),
    Empty,
}

/// The mathematical value of a cell.
pub ghost enum CellV {
    Text(Seq<char>),
    Number(i64),
    Empty,
}

impl View for Cell {
    type V = CellV;

    open spec fn view(&self) -> CellV {
        match self {
            Cell::Text(s) => CellV::Text(s@),
            Cell::Number(h) => CellV::Number(*h),
            Cell::Empty => CellV::Empty,
        }
    }
}

/// A representable cell: a numeric value has a magnitude, so the one
/// unrepresentable two's-complement minimum is excluded.
pub open spec fn cell_wf(c: CellV) -> bool {
    c matches CellV::Number(h) ==> h > i64::MIN
}

/// All cells of a row are representable.
pub open spec fn row_wf(r: Seq<Cell>) -> bool {
    forall|j: int| 0 <= j < r.len() ==> cell_wf(#[trigger] r[j]@)
}

/// All cells of a grid are representable.
pub open spec fn grid_wf(g: Seq<Vec<Cell>>) -> bool {
    forall|i: int| 0 <= i < g.len() ==> row_wf(#[trigger] g[i]@)
}

/// The string a cell renders to: its text, its number, or nothing.
pub open spec fn cell_string(c: CellV) -> Seq<char> {
    match c {
        CellV::Text(s) => s,
        CellV::Number(h) => hundredths_chars(h as int),
        CellV::Empty => Seq::<char>::empty(),
    }
}

/// The numeric value of a cell in hundredths: a number cell's value, a
/// numeric text cell's parsed value, nothing for an empty cell.
pub open spec fn cell_number(c: CellV) -> Option<i64> {
    match c {
        CellV::Number(h) => Some(h),
        CellV::Text(s) => parse_hundredths_spec(s),
        CellV::Empty => None,
    }
}

/// Renders a cell to its string form.
pub fn cell_to_string(c: &Cell) -> (r: String)
    requires
        cell_wf(c@),
    ensures
        r@ == cell_string(c@),
{
    match c {
        Cell::Text(s) => s.clone(),
        Cell::Number(h) => hundredths_to_string(*h),
        Cell::Empty => String::new(),
    }
}

/// Reads a cell's numeric value in hundredths.
pub fn cell_to_number(c: &Cell) -> (r: Option<i64>)
    ensures
        r == cell_number(c@),
{
    match c {
        Cell::Number(h) => Some(*h),
        Cell::Text(s) => parse_hundredths(s.as_str()),
        Cell::Empty => None,
    }
}

/// The zero-based index of the header row: headers stand in the grid's
/// third row.
pub const HEADER_ROW: usize = 2;

/// The string renderings of a whole row of cells.
pub open spec fn row_strings(r: Seq<Cell>) -> Seq<Seq<char>> {
    r.map_values(|c: Cell| cell_string(c@))
}

/// Returns the grid's header row rendered to strings, or
/// [`InputError::MalformedInput`] when the grid is too small to have one.
#[verifier::loop_isolation(false)]
pub fn headers(grid: &Vec<Vec<Cell>>) -> (r: Result<Vec<String>, InputError>)
    requires
        grid_wf(grid@),
    ensures
        match r {
            Ok(hs) => grid@.len() > HEADER_ROW && hs.deep_view() == row_strings(
                grid@[HEADER_ROW as int]@,
            ),
            Err(e) => grid@.len() <= HEADER_ROW && e == InputError::MalformedInput,
        },
{
    if grid.len() <= HEADER_ROW {
        return Err(InputError::MalformedInput);
    }
    let row = &grid[HEADER_ROW];
    let mut out: Vec<String> = Vec::new();
    let mut j: usize = 0;
    while j < row.len()
        invariant
            j <= row@.len(),
            out@.len() == j,
            forall|k: int| 0 <= k < j ==> #[trigger] out@[k]@ == cell_string(row@[k]@),
        decreases row@.len() - j,
    {
        out.push(cell_to_string(&row[j]));
        j = j + 1;
    }
    proof {
        assert(out.deep_view() =~= row_strings(grid@[HEADER_ROW as int]@));
    }
    Ok(out)
}

} // verus!
