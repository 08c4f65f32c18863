//! The table configuration: arity, an optional header and per-column
//! width policies, rendered through the per-column `TableWriter`.

use vstd::prelude::*;

use crate::table_writer::table_writer_lines;
use crate::table_writer::rows_deep;
use crate::table_writer::TableWriter;
use crate::text::string_views;
use crate::TableError;

verus! {

/// The width policy of one column: grow with the content, or cap it at a
/// limit and word-wrap what exceeds the cap.
#[derive(Copy, Clone, Debug, PartialEq, Eq, Structural)]
pub enum Width {
    Dynamic,
    Max(usize),
}

/// A table of a fixed number of columns, with an optional header row and
/// optional per-column width policies (every column defaults to
/// `Dynamic`).
pub struct Table {
    columns: usize,
    header: Option<Vec<String>>,
    column_widths: Option<Vec<Width>>,
}

impl Table {
    /// The number of columns every row must have.
    pub closed spec fn spec_columns(&self) -> usize {
        self.columns
    }

    /// The header captions, when a header was configured.
    pub closed spec fn spec_header(&self) -> Option<Seq<Seq<char>>> {
        match self.header {
            Some(h) => Some(string_views(h@)),
            None => None,
        }
    }

    /// The configured width policies, when any were configured.
    pub closed spec fn spec_widths(&self) -> Option<Seq<Width>> {
        match self.column_widths {
            Some(w) => Some(w@),
            None => None,
        }
    }

    /// The policies rendering runs under: the configured ones, or
    /// `Dynamic` for every column.
    pub open spec fn spec_policies(&self) -> Seq<Width> {
        match self.spec_widths() {
            Some(w) => w,
            None => Seq::new(self.spec_columns() as nat, |j: int| Width::Dynamic),
        }
    }

    /// A table of `columns` columns, without a header and with every
    /// column dynamically sized.
    pub fn new(columns: usize) -> (r: Table)
        ensures
            r.spec_columns() == columns,
            r.spec_header() is None,
            r.spec_widths() is None,
    {
        Table { columns, header: None, column_widths: None }
    }

    /// The same table with a header row.
    pub fn header(self, header_values: Vec<String>) -> (r: Table)
        ensures
            r.spec_columns() == self.spec_columns(),
            r.spec_header() == Some(string_views(header_values@)),
            r.spec_widths() == self.spec_widths(),
    {
        Table { header: Some(header_values), ..self }
    }

    /// The same table with per-column width policies.
    pub fn column_widths(self, column_widths: Vec<Width>) -> (r: Table)
        ensures
            r.spec_columns() == self.spec_columns(),
            r.spec_header() == self.spec_header(),
            r.spec_widths() == Some(column_widths@),
    {
        Table { column_widths: Some(column_widths), ..self }
    }

    /// Render the table over the given rows: the header, when present, is
    /// prepended, every row is checked to carry exactly as many values as
    /// the table has columns, and the grid is laid out under the width
    /// policies.  The rendered lines are returned in order, without
    /// trailing newlines.
    pub fn render(self, values: Vec<Vec<String>>) -> (r: Result<Vec<String>, TableError>)
        ensures
            (r is Ok) <==> {
                &&& (self.spec_widths() matches Some(w) ==> w.len() == self.spec_columns())
                &&& (self.spec_header() matches Some(h) ==> h.len() == self.spec_columns())
                &&& forall|i: int|
                    0 <= i < values@.len() ==> (#[trigger] values@[i])@.len()
                        == self.spec_columns()
            },
            r matches Ok(lines) ==> string_views(lines@) == table_writer_lines(
                self.spec_policies(),
                (match self.spec_header() {
                    Some(h) => seq![h],
                    None => Seq::empty(),
                }) + rows_deep(values@),
            ),
            (r is Err) ==> r == Err::<Vec<String>, TableError>(TableError::ArityMismatch),
    {
        let columns = self.columns;
        let ghost policies = self.spec_policies();
        let widths: Vec<Width> = match self.column_widths {
            Some(w) => {
                if w.len() != columns {
                    return Err(TableError::ArityMismatch);
                }
                w
            },
            None => {
                let mut w: Vec<Width> = Vec::new();
                let mut j: usize = 0;
                while j < columns
                    invariant
                        j <= columns,
                        w@.len() == j,
                        forall|t: int| 0 <= t < j ==> w@[t] == Width::Dynamic,
                    decreases columns - j,
                {
                    w.push(Width::Dynamic);
                    j = j + 1;
                }
                w
            },
        };
        proof {
            assert(widths@ =~= policies);
        }
        let mut rows: Vec<Vec<String>> = Vec::new();
        let ghost header_rows: Seq<Seq<Seq<char>>> = match self.spec_header() {
            Some(h) => seq![h],
            None => Seq::empty(),
        };
        match self.header {
            Some(h) => {
                rows.push(h);
            },
            None => {},
        }
        let ghost pre = rows@;
        let mut data = values;
        let ghost data_seq = data@;
        let ghost data_views = rows_deep(data@);
        rows.append(&mut data);
        proof {
            assert(rows@ == pre + data_seq);
            assert(data_views == rows_deep(values@));
            assert forall|i: int| 0 <= i < rows@.len() implies #[trigger] rows_deep(rows@)[i] == (
            header_rows + data_views)[i] by {
                assert(rows_deep(rows@)[i] == string_views(rows@[i]@));
                if i < pre.len() {
                    assert(rows@[i] == pre[i]);
                } else {
                    assert(rows@[i] == data_seq[i - pre.len()]);
                    assert(data_views[i - pre.len()] == string_views(data_seq[i - pre.len()]@));
                }
            }
            assert(rows_deep(rows@) =~= header_rows + data_views);
        }
        let writer = TableWriter::new(widths);
        let result = writer.write(rows);
        proof {
            if result is Ok {
                assert forall|i: int| 0 <= i < values@.len() implies (#[trigger] values@[i])@.len()
                    == self.spec_columns() by {
                    assert(values@[i] == data_seq[i]);
                    assert(rows@[pre.len() + i] == data_seq[i]);
                    assert(rows@[pre.len() + i]@.len() == widths@.len());
                }
                if header_rows.len() == 1 {
                    assert(rows@[0]@.len() == widths@.len());
                    assert(string_views(rows@[0]@).len() == rows@[0]@.len());
                    assert(string_views(rows@[0]@) == header_rows[0]);
                }
            } else {
                if (self.spec_header() matches Some(h) ==> h.len() == self.spec_columns())
                    && (forall|i: int|
                    0 <= i < values@.len() ==> (#[trigger] values@[i])@.len()
                        == self.spec_columns()) {
                    assert forall|i: int| 0 <= i < rows@.len() implies (#[trigger] rows@[i])@.len()
                        == widths@.len() by {
                        if header_rows.len() == 1 && i == 0 {
                            assert(string_views(rows@[0]@) == header_rows[0]);
                            assert(string_views(rows@[0]@).len() == rows@[0]@.len());
                        } else {
                            assert(rows@[i] == data_seq[i - pre.len()]);
                            assert(values@[i - pre.len()] == data_seq[i - pre.len()]);
                        }
                    }
                    assert(result is Ok);
                }
            }
        }
        result
    }
}

} // verus!
