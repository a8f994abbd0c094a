//! The store: a sheet of fixed shape and the current selection.

pub use crate::location::Location;
use crate::selection::{
    flipped, lemma_toggle_adds_or_removes, lemma_toggle_all_push, lemma_toggle_all_selects_odd,
    lemma_toggle_keeps_distinct, odd_locations, toggle, toggled, toggled_all,
};
use crate::sheet::{
    blank_row, blank_sheet, lemma_blank_sheet_shape, locations_match, rectangular, SheetView,
};
pub use crate::sheet::{Cell, Row};
use vstd::prelude::*;

verus! {

/// Rows and columns of the sheet that [`AppState::default`] builds.
pub const DEFAULT_SIZE: usize = 100;

/// The sheet and the selection.
///
/// Three things hold of every store, at all times: all rows of the sheet
/// have the same number of cells, every cell carries its own position as
/// location, and the selection holds no location twice. No operation changes
/// the sheet after construction.
///
/// Selected locations are not held against the sheet's bounds: any pair of
/// indices can be selected.
pub struct AppState {
    sheet: Vec<Row>,
    selected_cells: Vec<Location>,
}

impl AppState {
    #[verifier::type_invariant]
    spec fn well_formed(&self) -> bool {
        &&& rectangular(self.sheet.deep_view())
        &&& locations_match(self.sheet.deep_view())
        &&& self.selected_cells@.no_duplicates()
    }

    /// The sheet: its rows from top to bottom, each with its cells from left
    /// to right.
    pub closed spec fn sheet(&self) -> SheetView {
        self.sheet.deep_view()
    }

    /// The selected locations, in the order in which the store keeps them.
    pub closed spec fn selection(&self) -> Seq<Location> {
        self.selected_cells@
    }

    /// The selected locations as a set.
    pub open spec fn selected(&self) -> Set<Location> {
        self.selection().to_set()
    }

    /// A store with a fresh sheet of `rows` rows and `cols` columns and an
    /// empty selection.
    pub fn with_size(rows: usize, cols: usize) -> (state: Self)
        ensures
            state.sheet() == blank_sheet(rows as nat, cols as nat),
            state.selection() == Seq::<Location>::empty(),
    {
        let mut sheet: Vec<Row> = Vec::new();
        let mut y: usize = 0;
        while y < rows
            invariant
                y <= rows,
                sheet@.len() == y,
                forall|i: int| 0 <= i < y ==> (#[trigger] sheet@[i])@ == blank_row(i, cols as nat),
            decreases rows - y,
        {
            sheet.push(Row::blank(y, cols));
            y = y + 1;
        }
        proof {
            assert(sheet.deep_view() =~= blank_sheet(rows as nat, cols as nat));
            lemma_blank_sheet_shape(rows as nat, cols as nat);
        }
        AppState { sheet, selected_cells: Vec::new() }
    }

    /// The selection, in the order in which the store keeps it.
    pub fn selected_cells(&self) -> (cells: &Vec<Location>)
        ensures
            cells@ == self.selection(),
            cells@.no_duplicates(),
    {
        proof {
            use_type_invariant(self);
        }
        &self.selected_cells
    }

    /// Empties the selection.
    pub fn clear_selected_cells(&mut self)
        ensures
            final(self).selection() == Seq::<Location>::empty(),
            final(self).sheet() == old(self).sheet(),
    {
        proof {
            use_type_invariant(&*self);
        }
        // The list is taken out while it changes and put back when done, so
        // that the store is well-formed at every step.
        let mut cells: Vec<Location> = Vec::new();
        core::mem::swap(&mut cells, &mut self.selected_cells);
        cells.clear();
        self.selected_cells = cells;
    }

    /// Toggles the location `(x, y)` in the selection and returns a copy of
    /// the selection as it then stands: a selected location is taken out, one
    /// that is not selected is added at the end. Any `x` and `y` are taken,
    /// inside the sheet or not.
    pub fn set_selected_cell(&mut self, x: usize, y: usize) -> (selection: Vec<Location>)
        ensures
            final(self).selection() == toggled(old(self).selection(), Location(x, y)),
            final(self).selected() == flipped(old(self).selected(), Location(x, y)),
            old(self).selected().contains(Location(x, y))
                ==> selection@.len() == old(self).selection().len() - 1,
            !old(self).selected().contains(Location(x, y))
                ==> selection@.len() == old(self).selection().len() + 1,
            final(self).sheet() == old(self).sheet(),
            selection@ == final(self).selection(),
            selection@.no_duplicates(),
    {
        let loc = Location(x, y);
        proof {
            use_type_invariant(&*self);
            lemma_toggle_keeps_distinct(self.selected_cells@, loc);
            lemma_toggle_adds_or_removes(self.selected_cells@, loc);
        }
        // Taken out and put back, as in `clear_selected_cells`.
        let mut cells: Vec<Location> = Vec::new();
        core::mem::swap(&mut cells, &mut self.selected_cells);
        toggle(&mut cells, loc);
        let selection = cells.clone();
        self.selected_cells = cells;
        selection
    }

    /// Replaces the selection by the result of toggling each location of
    /// `cells`, from the first to the last, against an empty selection, and
    /// returns a copy of the selection as it then stands.
    ///
    /// This is no set union: a location that `cells` names twice is toggled
    /// twice, so it ends up selected if and only if it is named an odd number
    /// of times.
    pub fn set_selected_cells(&mut self, cells: Vec<Location>) -> (selection: Vec<Location>)
        ensures
            final(self).selection() == toggled_all(Seq::empty(), cells@),
            final(self).selected() == odd_locations(cells@),
            final(self).sheet() == old(self).sheet(),
            selection@ == final(self).selection(),
            selection@.no_duplicates(),
    {
        self.clear_selected_cells();
        let mut index: usize = 0;
        while index < cells.len()
            invariant
                index <= cells.len(),
                self.selection() == toggled_all(Seq::empty(), cells@.take(index as int)),
                self.sheet() == old(self).sheet(),
            decreases cells.len() - index,
        {
            proof {
                lemma_toggle_all_push(
                    Seq::empty(),
                    cells@.take(index as int),
                    cells@[index as int],
                );
                assert(cells@.take(index as int).push(cells@[index as int]) =~= cells@.take(
                    index + 1,
                ));
            }
            self.set_selected_cell(cells[index].0, cells[index].1);
            index = index + 1;
        }
        proof {
            assert(cells@.take(cells.len() as int) =~= cells@);
            use_type_invariant(&*self);
            lemma_toggle_all_selects_odd(cells@);
        }
        self.selected_cells.clone()
    }

    /// A copy of the sheet, row by row and cell by cell. The copy is the
    /// caller's own: nothing done to the store afterwards reaches it.
    pub fn get_sheet(&self) -> (sheet: Vec<Row>)
        ensures
            sheet.deep_view() == self.sheet(),
            rectangular(sheet.deep_view()),
            locations_match(sheet.deep_view()),
    {
        proof {
            use_type_invariant(self);
        }
        self.sheet.clone()
    }
}

impl Default for AppState {
    /// A store with a fresh sheet of [`DEFAULT_SIZE`] rows and as many
    /// columns, and an empty selection.
    fn default() -> (state: AppState)
        ensures
            state.sheet() == blank_sheet(DEFAULT_SIZE as nat, DEFAULT_SIZE as nat),
            state.selection() == Seq::<Location>::empty(),
    {
        AppState::with_size(DEFAULT_SIZE, DEFAULT_SIZE)
    }
}

} // verus!
