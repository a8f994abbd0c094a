//! Cells and rows of the sheet, and their mathematical views.

use crate::location::Location;
use vstd::prelude::*;

verus! {

/// What a [`Cell`] holds: its text and the location it was created for.
pub struct CellView {
    pub value: Seq<char>,
    pub location: Location,
}

/// A row seen as the sequence of its cells, left to right.
pub type RowView = Seq<CellView>;

/// A sheet seen as the sequence of its rows, top to bottom.
pub type SheetView = Seq<RowView>;

/// One entry of the sheet: a text value and the cell's own location.
pub struct Cell {
    value: String,
    location: Location,
}

/// One row of the sheet: its cells, indexed by column.
pub struct Row {
    cells: Vec<Cell>,
}

impl View for Cell {
    type V = CellView;

    closed spec fn view(&self) -> CellView {
        CellView { value: self.value@, location: self.location }
    }
}

impl DeepView for Cell {
    type V = CellView;

    open spec fn deep_view(&self) -> CellView {
        self.view()
    }
}

impl View for Row {
    type V = RowView;

    closed spec fn view(&self) -> RowView {
        self.cells.deep_view()
    }
}

impl DeepView for Row {
    type V = RowView;

    open spec fn deep_view(&self) -> RowView {
        self.view()
    }
}

/// The cell that a fresh sheet holds at column `x` of row `y`: no text, and
/// its own position as location.
pub open spec fn blank_cell(x: int, y: int) -> CellView {
    CellView { value: Seq::empty(), location: Location(x as usize, y as usize) }
}

/// Row `y` of a fresh sheet with `cols` columns.
pub open spec fn blank_row(y: int, cols: nat) -> RowView {
    Seq::new(cols, |x: int| blank_cell(x, y))
}

/// A fresh sheet of `rows` rows and `cols` columns.
pub open spec fn blank_sheet(rows: nat, cols: nat) -> SheetView {
    Seq::new(rows, |y: int| blank_row(y, cols))
}

/// Every cell of `sheet` carries its own position: the cell at column `x` of
/// row `y` has location `(x, y)`.
pub open spec fn locations_match(sheet: SheetView) -> bool {
    forall|y: int, x: int|
        0 <= y < sheet.len() && 0 <= x < sheet[y].len() ==> (#[trigger] sheet[y][x]).location
            == Location(x as usize, y as usize)
}

/// All rows of `sheet` have the same number of cells.
pub open spec fn rectangular(sheet: SheetView) -> bool {
    forall|y1: int, y2: int|
        0 <= y1 < sheet.len() && 0 <= y2 < sheet.len() ==> (#[trigger] sheet[y1]).len() == (
        #[trigger] sheet[y2]).len()
}

/// A fresh sheet is rectangular and each of its cells carries its own
/// position.
pub proof fn lemma_blank_sheet_shape(rows: nat, cols: nat)
    ensures
        rectangular(blank_sheet(rows, cols)),
        locations_match(blank_sheet(rows, cols)),
        blank_sheet(rows, cols).len() == rows,
        forall|y: int| 0 <= y < rows ==> (#[trigger] blank_sheet(rows, cols)[y]).len() == cols,
{
}

impl Cell {
    /// The empty cell for column `x` of row `y`.
    pub fn default(x: usize, y: usize) -> (cell: Self)
        ensures
            cell@ == blank_cell(x as int, y as int),
    {
        Self { value: String::new(), location: Location(x, y) }
    }

    /// The cell's text.
    pub fn value(&self) -> (value: &str)
        ensures
            value@ == self@.value,
    {
        self.value.as_str()
    }

    /// The location stored in the cell.
    pub fn location(&self) -> (location: Location)
        ensures
            location == self@.location,
    {
        self.location
    }
}

impl Clone for Cell {
    fn clone(&self) -> (copy: Self)
        ensures
            copy@ == self@,
    {
        Self { value: self.value.clone(), location: self.location }
    }
}

impl Row {
    /// The row's cells, indexed by column.
    pub fn cells(&self) -> (cells: &Vec<Cell>)
        ensures
            cells.deep_view() == self@,
    {
        &self.cells
    }

    /// Row `y` of a fresh sheet with `cols` columns.
    pub fn blank(y: usize, cols: usize) -> (row: Self)
        ensures
            row@ == blank_row(y as int, cols as nat),
    {
        let mut cells: Vec<Cell> = Vec::new();
        let mut x: usize = 0;
        while x < cols
            invariant
                x <= cols,
                cells@.len() == x,
                forall|j: int| 0 <= j < x ==> (#[trigger] cells@[j])@ == blank_cell(j, y as int),
            decreases cols - x,
        {
            cells.push(Cell::default(x, y));
            x = x + 1;
        }
        assert(cells.deep_view() =~= blank_row(y as int, cols as nat));
        Row { cells }
    }
}

impl Clone for Row {
    fn clone(&self) -> (copy: Self)
        ensures
            copy@ == self@,
    {
        Row { cells: self.cells.clone() }
    }
}

} // verus!
