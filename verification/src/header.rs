//! An optional header row, logically prepended to the data rows.

use vstd::prelude::*;

use crate::row::Row;
use crate::row::ToRow;
use crate::text::string_views;

verus! {

/// A header: one caption per column.  Viewed as the sequence of its
/// captions' character sequences.
pub struct Header {
    header_values: Vec<String>,
}

impl View for Header {
    type V = Seq<Seq<char>>;

    closed spec fn view(&self) -> Seq<Seq<char>> {
        string_views(self.header_values@)
    }
}

impl Header {
    /// A header with the given captions.
    pub fn new(values: Vec<&str>) -> (r: Header)
        ensures
            r@.len() == values@.len(),
            forall|i: int| 0 <= i < values@.len() ==> r@[i] == (#[trigger] values@[i])@,
    {
        let mut header_values: Vec<String> = Vec::new();
        let mut i: usize = 0;
        while i < values.len()
            invariant
                i <= values@.len(),
                header_values@.len() == i,
                forall|k: int|
                    0 <= k < i ==> string_views(header_values@)[k] == (#[trigger] values@[k])@,
            decreases values@.len() - i,
        {
            let owned = values[i].to_owned();
            header_values.push(owned);
            i = i + 1;
        }
        Header { header_values }
    }
}

impl ToRow for Header {
    fn to_table_row(&self) -> (r: Row) {
        let mut values: Vec<String> = Vec::new();
        let mut i: usize = 0;
        while i < self.header_values.len()
            invariant
                i <= self.header_values@.len(),
                values@.len() == i,
                forall|k: int|
                    0 <= k < i ==> string_views(values@)[k] == string_views(
                        self.header_values@,
                    )[k],
            decreases self.header_values@.len() - i,
        {
            let ghost before = values@;
            let owned = self.header_values[i].clone();
            assert(owned@ == self.header_values@[i as int]@);
            values.push(owned);
            proof {
                assert(values@[i as int]@ == self.header_values@[i as int]@);
                assert forall|k: int| 0 <= k < i + 1 implies string_views(values@)[k]
                    == string_views(self.header_values@)[k] by {
                    if k < i {
                        assert(values@[k] == before[k]);
                        assert(string_views(before)[k] == before[k]@);
                        assert(string_views(before)[k] == string_views(self.header_values@)[k]);
                    }
                }
            }
            i = i + 1;
        }
        let r = Row { values };
        assert(r@ =~= self@);
        r
    }
}

} // verus!
