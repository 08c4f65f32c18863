//! A layout engine for bordered, monospace text tables: it measures rows
//! of fixed arity, word-wraps cell content to per-column or shared widths,
//! splits each row into a synchronized grid of physical lines and renders
//! the grid with `+`/`-`/`|` borders.  Widths are counted in Unicode
//! scalar values.  The engine is a pure transform: collecting rows and
//! writing the rendered lines to a sink belong to its callers.

pub mod cells;
pub mod header;
pub mod printer;
pub mod row;
pub mod string_utils;
pub mod table;
pub mod table_writer;
pub mod text;

use vstd::prelude::*;

verus! {

/// Error raised when a row does not carry exactly as many values as the
/// table has columns.  Arity is checked when rows enter the layout engine,
/// before any rendering work happens.
#[derive(Clone, Copy, Debug, PartialEq, Eq, Structural)]
pub enum TableError {
    ArityMismatch,
}

} // verus!
