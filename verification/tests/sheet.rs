use gridstore::location::Location;
use gridstore::sheet::{Cell, Row};
use gridstore::state::{AppState, DEFAULT_SIZE};

fn assert_fresh_sheet(sheet: &[Row], rows: usize, cols: usize) {
    assert_eq!(sheet.len(), rows);
    for (y, row) in sheet.iter().enumerate() {
        assert_eq!(row.cells().len(), cols);
        for (x, cell) in row.cells().iter().enumerate() {
            assert_eq!(cell.value(), "");
            assert_eq!(cell.location(), Location(x, y));
        }
    }
}

#[test]
fn default_store_has_a_hundred_rows_of_a_hundred_empty_cells() {
    let state = AppState::default();
    let sheet = state.get_sheet();
    assert_eq!(DEFAULT_SIZE, 100);
    assert_eq!(sheet.len(), 100);
    for row in sheet.iter() {
        assert_eq!(row.cells().len(), 100);
    }
    assert_fresh_sheet(&sheet, 100, 100);
}

#[test]
fn default_store_starts_with_an_empty_selection() {
    let state = AppState::default();
    assert!(state.selected_cells().is_empty());
}

#[test]
fn cell_location_is_column_then_row() {
    let state = AppState::default();
    let sheet = state.get_sheet();
    let cell = &sheet[4].cells()[3];
    assert_eq!(cell.location(), Location(3, 4));
    assert_eq!(cell.location().0, 3);
    assert_eq!(cell.location().1, 4);
    let corner = &sheet[99].cells()[0];
    assert_eq!(corner.location(), Location(0, 99));
}

#[test]
fn sized_store_has_the_shape_asked_for() {
    let state = AppState::with_size(3, 5);
    let sheet = state.get_sheet();
    assert_fresh_sheet(&sheet, 3, 5);
    assert_eq!(sheet[2].cells()[4].location(), Location(4, 2));
}

#[test]
fn store_without_rows_or_columns() {
    assert!(AppState::with_size(0, 0).get_sheet().is_empty());
    assert!(AppState::with_size(0, 7).get_sheet().is_empty());
    let no_columns = AppState::with_size(4, 0).get_sheet();
    assert_eq!(no_columns.len(), 4);
    assert!(no_columns.iter().all(|row| row.cells().is_empty()));
}

#[test]
fn shape_is_the_same_after_any_selection_change() {
    let mut state = AppState::with_size(6, 4);
    assert_fresh_sheet(&state.get_sheet(), 6, 4);
    state.set_selected_cell(1, 1);
    assert_fresh_sheet(&state.get_sheet(), 6, 4);
    state.set_selected_cell(50, 60);
    assert_fresh_sheet(&state.get_sheet(), 6, 4);
    state.set_selected_cells(vec![Location(0, 0), Location(3, 5), Location(0, 0)]);
    assert_fresh_sheet(&state.get_sheet(), 6, 4);
    state.clear_selected_cells();
    assert_fresh_sheet(&state.get_sheet(), 6, 4);
    state.set_selected_cell(1, 1);
    state.set_selected_cell(1, 1);
    assert_fresh_sheet(&state.get_sheet(), 6, 4);
}

#[test]
fn snapshot_is_not_touched_by_later_changes() {
    let mut state = AppState::with_size(2, 3);
    let snapshot = state.get_sheet();
    state.set_selected_cell(0, 0);
    state.set_selected_cells(vec![Location(1, 1), Location(2, 0)]);
    state.clear_selected_cells();
    assert_fresh_sheet(&snapshot, 2, 3);
    drop(state);
    assert_fresh_sheet(&snapshot, 2, 3);
}

#[test]
fn two_snapshots_are_equal_and_independent() {
    let state = AppState::with_size(2, 2);
    let first = state.get_sheet();
    let second = state.get_sheet();
    drop(first);
    assert_fresh_sheet(&second, 2, 2);
}

#[test]
fn default_cell_is_empty_and_knows_its_place() {
    let cell = Cell::default(7, 9);
    assert_eq!(cell.value(), "");
    assert_eq!(cell.location(), Location(7, 9));
    let far = Cell::default(usize::MAX, 0);
    assert_eq!(far.location(), Location(usize::MAX, 0));
}

#[test]
fn cloned_cell_and_row_hold_the_same() {
    let cell = Cell::default(2, 1);
    let copy = cell.clone();
    assert_eq!(copy.value(), cell.value());
    assert_eq!(copy.location(), cell.location());

    let row = Row::blank(1, 3);
    let copy = row.clone();
    assert_eq!(copy.cells().len(), 3);
    for (x, cell) in copy.cells().iter().enumerate() {
        assert_eq!(cell.value(), "");
        assert_eq!(cell.location(), Location(x, 1));
    }
}

#[test]
fn blank_row_has_one_cell_per_column() {
    let row = Row::blank(8, 4);
    assert_eq!(row.cells().len(), 4);
    assert_eq!(row.cells()[0].location(), Location(0, 8));
    assert_eq!(row.cells()[3].location(), Location(3, 8));
    assert!(Row::blank(8, 0).cells().is_empty());
}
