//! The client's operations as plain request descriptions, and the values
//! read back out of the service's responses.
//!
//! A caller sends what these functions return through its own connection to
//! the service; every description here is complete, so sending is a
//! one-for-one conversion.
use vstd::prelude::*;

use crate::address::{cell_address, get_addr_int, get_cell_address, parsed_address};
use crate::error::SheetError;
use crate::text::push_char;

verus! {

/// How a grid of values is laid out: each inner sequence is a row, or a
/// column.
#[derive(Debug, Clone, Copy, PartialEq, Eq)]
pub enum MajorDimension {
    Rows,
    Columns,
}

/// Where written values land: over the cells of the range, or in new rows
/// inserted after the table that the range finds.
#[derive(Debug, Clone, Copy, PartialEq, Eq)]
pub enum WriteMode {
    Overwrite,
    InsertRows,
}

/// A write of raw string values into a range. The values are stored as
/// given, with no reading of numbers, dates or formulas.
#[derive(Debug)]
pub struct ValuesWrite {
    /// The target, in the service's range syntax (`"A2:C2"`, `"B1"`).
    pub range: String,
    pub values: Vec<Vec<String>>,
    /// `None` leaves the service's default, rows.
    pub major_dimension: Option<MajorDimension>,
    pub mode: WriteMode,
}

/// A rectangle of cells of one sheet, by zero-based indices; each start is
/// inclusive and each end exclusive.
#[derive(Debug, Clone, Copy, PartialEq, Eq)]
pub struct CellRange {
    pub sheet_id: i32,
    pub start_row_index: i32,
    pub end_row_index: i32,
    pub start_column_index: i32,
    pub end_column_index: i32,
}

/// One request of a batch update of the spreadsheet's structure or format.
#[derive(Debug)]
pub enum SheetRequest {
    /// Gives the sheet with id 0, which the service makes first, a new title.
    RenameSheet { title: String },
    /// Adds a sheet with the given title.
    AddSheet { title: String },
    /// Sets the background colour of the cells of `range`, and no other
    /// part of their format; the colour is supplied when the request is
    /// sent.
    SetBackground { range: CellRange },
}

/// What the service reports of one sheet: its id and its title, each of
/// which a response may leave out.
#[derive(Debug)]
pub struct SheetEntry {
    pub sheet_id: Option<i32>,
    pub title: Option<String>,
}

/// The title of the first sheet whose id is `id`, or `None` where no sheet
/// has that id (or the first that has it has no title).
pub open spec fn title_for_id(sheets: Seq<SheetEntry>, id: i32) -> Option<String>
    decreases sheets.len(),
{
    if sheets.len() == 0 {
        None
    } else if sheets[0].sheet_id == Some(id) {
        sheets[0].title
    } else {
        title_for_id(sheets.drop_first(), id)
    }
}

/// The id of the first sheet titled `title`, or `None` where no sheet has
/// that title (or the first that has it has no id).
pub open spec fn id_for_title(sheets: Seq<SheetEntry>, title: Seq<char>) -> Option<i32>
    decreases sheets.len(),
{
    if sheets.len() == 0 {
        None
    } else if sheets[0].title matches Some(t) && t@ == title {
        sheets[0].sheet_id
    } else {
        id_for_title(sheets.drop_first(), title)
    }
}

/// The title of the sheet with id `id` in a list of sheets, or `None`.
pub fn sheet_title_for_id(sheets: &Vec<SheetEntry>, id: i32) -> (r: Option<String>)
    ensures
        r == title_for_id(sheets@, id),
{
    let mut i: usize = 0;
    assert(sheets@.subrange(0, sheets.len() as int) =~= sheets@);
    while i < sheets.len()
        invariant
            i <= sheets.len(),
            title_for_id(sheets@, id) == title_for_id(sheets@.subrange(i as int, sheets.len() as int), id),
        decreases sheets.len() - i,
    {
        let ghost rest = sheets@.subrange(i as int, sheets.len() as int);
        assert(rest.drop_first() =~= sheets@.subrange(i + 1, sheets.len() as int));
        let entry = &sheets[i];
        if entry.sheet_id == Some(id) {
            return match &entry.title {
                Some(t) => Some(t.clone()),
                None => None,
            };
        }
        i = i + 1;
    }
    None
}

/// The id of the sheet titled `title` in a list of sheets, or `None`.
pub fn sheet_id_for_title(sheets: &Vec<SheetEntry>, title: &str) -> (r: Option<i32>)
    ensures
        r == id_for_title(sheets@, title@),
{
    let wanted = String::from_str(title);
    let mut i: usize = 0;
    assert(sheets@.subrange(0, sheets.len() as int) =~= sheets@);
    while i < sheets.len()
        invariant
            i <= sheets.len(),
            wanted@ == title@,
            id_for_title(sheets@, title@) == id_for_title(sheets@.subrange(i as int, sheets.len() as int), title@),
        decreases sheets.len() - i,
    {
        let ghost rest = sheets@.subrange(i as int, sheets.len() as int);
        assert(rest.drop_first() =~= sheets@.subrange(i + 1, sheets.len() as int));
        let entry = &sheets[i];
        if let Some(t) = &entry.title {
            if t.eq(&wanted) {
                return entry.sheet_id;
            }
        }
        i = i + 1;
    }
    None
}

/// `grid` lays `values` down one column: one single-value inner sequence
/// for each value, in order.
pub open spec fn is_column_of(grid: Seq<Vec<String>>, values: Seq<String>) -> bool {
    &&& grid.len() == values.len()
    &&& forall|j: int| 0 <= j < values.len() ==> (#[trigger] grid[j])@ == seq![values[j]]
}

/// The range of the cells of `row` from column `start_col` to column
/// `end_col`: `"A2:C2"`.
pub open spec fn row_range(row: int, start_col: int, end_col: int) -> Seq<char> {
    cell_address(row, start_col) + seq![':'] + cell_address(row, end_col)
}

/// The write of `values` down column `col`, from row `start_row` on: the
/// range is the first cell's address and the values are laid out by
/// column, so `(2, 1, ["x", "y"])` writes `[["x"], ["y"]]` to `"B1"`. Fails
/// with `PreconditionViolation` where `col` or `start_row` is below 1.
pub fn write_column_request(col: i32, start_row: i32, values: Vec<String>) -> (r: Result<
    ValuesWrite,
    SheetError,
>)
    ensures
        start_row < 1 || col < 1 ==> r == Err::<ValuesWrite, SheetError>(
            SheetError::PreconditionViolation,
        ),
        start_row >= 1 && col >= 1 ==> (r matches Ok(w) && w.range@ == cell_address(
            start_row as int,
            col as int,
        ) && is_column_of(w.values@, values@) && w.major_dimension == Some(MajorDimension::Columns)
            && w.mode == WriteMode::Overwrite),
{
    let range = match get_cell_address(start_row, col) {
        Ok(a) => a,
        Err(e) => {
            return Err(e);
        },
    };
    let ghost given = values@;
    let mut rest = values;
    let mut grid: Vec<Vec<String>> = Vec::new();
    while rest.len() > 0
        invariant
            grid@.len() + rest@.len() == given.len(),
            rest@ == given.subrange(grid@.len() as int, given.len() as int),
            forall|j: int| 0 <= j < grid@.len() ==> (#[trigger] grid@[j])@ == seq![given[j]],
        decreases rest@.len(),
    {
        let v = rest.remove(0);
        let mut cell: Vec<String> = Vec::new();
        cell.push(v);
        grid.push(cell);
        assert(rest@ =~= given.subrange(grid@.len() as int, given.len() as int));
    }
    Ok(ValuesWrite {
        range,
        values: grid,
        major_dimension: Some(MajorDimension::Columns),
        mode: WriteMode::Overwrite,
    })
}

/// The write of `values` across row `row`, from column `start_col` on: the
/// range runs from column `start_col` to column `start_col + len - 1` and
/// the values form one row, so `(2, 1, ["x", "y", "z"])` writes
/// `[["x", "y", "z"]]` to `"A2:C2"`. Fails with `PreconditionViolation`
/// where `row`, `start_col` or the last column is below 1, and with
/// `NumericOverflow` where the last column exceeds `i32::MAX`.
pub fn write_row_request(row: i32, start_col: i32, values: Vec<String>) -> (r: Result<
    ValuesWrite,
    SheetError,
>)
    ensures
        ({
            let end_col = start_col + values@.len() - 1;
            &&& row < 1 || start_col < 1 || end_col < 1 ==> r == Err::<ValuesWrite, SheetError>(
                SheetError::PreconditionViolation,
            )
            &&& row >= 1 && start_col >= 1 && end_col >= 1 && end_col > i32::MAX ==> r == Err::<
                ValuesWrite,
                SheetError,
            >(SheetError::NumericOverflow)
            &&& row >= 1 && start_col >= 1 && end_col >= 1 && end_col <= i32::MAX ==> (r matches Ok(
                w,
            ) && w.range@ == row_range(row as int, start_col as int, end_col)
                && w.values@ == seq![values] && w.major_dimension == Some(MajorDimension::Rows)
                && w.mode == WriteMode::Overwrite)
        }),
{
    if row < 1 || start_col < 1 || (start_col == 1 && values.len() == 0) {
        return Err(SheetError::PreconditionViolation);
    }
    if values.len() > i32::MAX as usize {
        return Err(SheetError::NumericOverflow);
    }
    let end_col: i64 = start_col as i64 + values.len() as i64 - 1;
    if end_col > i32::MAX as i64 {
        return Err(SheetError::NumericOverflow);
    }
    let mut range = match get_cell_address(row, start_col) {
        Ok(a) => a,
        Err(e) => {
            return Err(e);
        },
    };
    push_char(&mut range, ':');
    match get_cell_address(row, end_col as i32) {
        Ok(b) => range.append(b.as_str()),
        Err(e) => {
            return Err(e);
        },
    }
    let mut grid: Vec<Vec<String>> = Vec::new();
    grid.push(values);
    assert(range@ =~= row_range(row as int, start_col as int, end_col as int));
    Ok(ValuesWrite {
        range,
        values: grid,
        major_dimension: Some(MajorDimension::Rows),
        mode: WriteMode::Overwrite,
    })
}

/// The request that sets the background of the one cell at `row` and `col`
/// of sheet `sheet_id`.
pub open spec fn background_request(sheet_id: i32, row: i32, col: i32) -> SheetRequest {
    SheetRequest::SetBackground {
        range: CellRange {
            sheet_id,
            start_row_index: (row - 1) as i32,
            end_row_index: row,
            start_column_index: (col - 1) as i32,
            end_column_index: col,
        },
    }
}

/// What formatting the background of the cell at address `a` of the sheet
/// that a title lookup gave comes to.
pub open spec fn background_result(sheet_id: Option<i32>, a: Seq<char>) -> Result<
    SheetRequest,
    SheetError,
> {
    match sheet_id {
        None => Err(SheetError::NotFound),
        Some(id) => match parsed_address(a) {
            Err(e) => Err(e),
            Ok((row, col)) => if row < 1 {
                Err(SheetError::InvalidInput)
            } else {
                Ok(background_request(id, row, col))
            },
        },
    }
}

/// The request that sets the background of the cell at `cell_address` of
/// the sheet that a title lookup gave. Fails with `NotFound` where the
/// lookup found no sheet, and then asks for nothing; otherwise fails as
/// parsing the address does, or with `InvalidInput` where its row is 0.
pub fn format_cell_request(sheet_id: Option<i32>, cell_address: &str) -> (r: Result<
    SheetRequest,
    SheetError,
>)
    ensures
        r == background_result(sheet_id, cell_address@),
{
    let id = match sheet_id {
        Some(id) => id,
        None => {
            return Err(SheetError::NotFound);
        },
    };
    let (row, col) = match get_addr_int(cell_address) {
        Ok(rc) => rc,
        Err(e) => {
            return Err(e);
        },
    };
    if row < 1 {
        return Err(SheetError::InvalidInput);
    }
    assert(col >= 1) by {
        crate::address::lemma_parsed_column_positive(cell_address@);
    }
    Ok(
        SheetRequest::SetBackground {
            range: CellRange {
                sheet_id: id,
                start_row_index: row - 1,
                end_row_index: row,
                start_column_index: col - 1,
                end_column_index: col,
            },
        },
    )
}

/// The id of the sheet that an add-sheet batch created, from the id that
/// each reply of the batch carries (`None` where a reply carries none): the
/// first reply's, or `None` where there is no reply.
pub fn created_sheet_id(replies: Option<Vec<Option<i32>>>) -> (r: Option<i32>)
    ensures
        (replies matches Some(v) && v@.len() > 0) ==> r == replies->Some_0@[0],
        !(replies matches Some(v) && v@.len() > 0) ==> r is None,
{
    match replies {
        Some(v) => {
            if v.len() > 0 {
                v[0]
            } else {
                None
            }
        },
        None => None,
    }
}

} // verus!
