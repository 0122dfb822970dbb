//! Extraction of KS-2 cost-settlement acts from spreadsheet cell grids and
//! reconciliation of their totals into one stable report layout.
pub mod act;
pub mod console;
pub mod emit;
pub mod error;
pub mod files;
pub mod grid;
pub mod load;
pub mod sheet;
pub mod tags;
pub mod text;
pub mod utils;
