//! In-memory state of a spreadsheet-like grid: a sheet of cells whose shape is
//! fixed at construction, and the set of currently selected cell locations.
//!
//! [`state::AppState`] is the store. It hands out copies of the sheet and
//! changes the selection by toggling locations. Locking is left to the
//! caller: the mutating operations take `&mut self`.

pub mod location;
pub mod selection;
pub mod sheet;
pub mod state;
