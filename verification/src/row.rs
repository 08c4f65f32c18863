//! One table row: a fixed number of column values.

use vstd::prelude::*;

use crate::text::string_views;

verus! {

/// Anything that can present itself as a table row carrying the same
/// column values as its own view.
pub trait ToRow: View<V = Seq<Seq<char>>> {
    fn to_table_row(&self) -> (r: Row)
        ensures
            r@ == self@,
    ;
}

/// One row of column values.  A row is viewed as the sequence of its
/// values' character sequences.
pub struct Row {
    pub values: Vec<String>,
}

impl View for Row {
    type V = Seq<Seq<char>>;

    open spec fn view(&self) -> Seq<Seq<char>> {
        string_views(self.values@)
    }
}

impl From<Vec<String>> for Row {
    fn from(values: Vec<String>) -> (r: Row) {
        Row { values }
    }
}

impl vstd::std_specs::convert::FromSpecImpl<Vec<String>> for Row {
    open spec fn obeys_from_spec() -> bool {
        true
    }

    open spec fn from_spec(values: Vec<String>) -> Row {
        Row { values }
    }
}

} // verus!
