//! The measured grid: dimensions, cells, rows of cells and the cell
//! structure of a whole table under a single shared cell size.

use vstd::prelude::*;

use crate::row::Row;
use crate::text::char_views;
use crate::text::chars_to_string;
use crate::text::lemma_max_len_bound;
use crate::text::max_len;
use crate::text::split_newline_segments;
use crate::text::split_newlines;
use crate::text::str_to_chars;
use crate::text::string_views;
use crate::text::text_height;
use crate::text::text_width;
use crate::TableError;

verus! {

/// The size of a rectangle of text: its widest line and its number of
/// lines.
#[derive(Copy, Clone, Debug, PartialEq, Eq, Structural)]
pub struct Dimension {
    pub width: usize,
    pub height: usize,
}

/// The component-wise maximum of two dimensions.
pub open spec fn merged(a: Dimension, b: Dimension) -> Dimension {
    Dimension {
        width: if a.width >= b.width {
            a.width
        } else {
            b.width
        },
        height: if a.height >= b.height {
            a.height
        } else {
            b.height
        },
    }
}

/// Merging is commutative.
pub proof fn lemma_merged_commutative(a: Dimension, b: Dimension)
    ensures
        merged(a, b) == merged(b, a),
{
}

/// Merging equal dimensions changes nothing.
pub proof fn lemma_merged_idempotent(a: Dimension)
    ensures
        merged(a, a) == a,
{
}

/// Merging is associative.
pub proof fn lemma_merged_associative(a: Dimension, b: Dimension, c: Dimension)
    ensures
        merged(merged(a, b), c) == merged(a, merged(b, c)),
{
}

impl Dimension {
    /// Measure a string: width is the length of its longest physical line
    /// in Unicode scalar values, height its number of physical lines (an
    /// empty string has one empty line).
    pub fn from_string(string: &String) -> (r: Dimension)
        ensures
            r.width == text_width(string@),
            r.height == text_height(string@),
    {
        let chars = str_to_chars(string.as_str());
        let segs = split_newline_segments(&chars);
        let ghost seg_views = split_newlines(string@);
        let height = segs.len();
        let mut width: usize = 0;
        let mut k: usize = 0;
        proof {
            assert(seg_views.take(0) =~= Seq::<Seq<char>>::empty());
        }
        while k < segs.len()
            invariant
                k <= segs@.len(),
                char_views(segs@) == seg_views,
                width == max_len(seg_views.take(k as int)),
            decreases segs@.len() - k,
        {
            proof {
                assert(seg_views.take(k + 1 as int).drop_last() =~= seg_views.take(k as int));
                assert(seg_views.take(k + 1 as int).last() == seg_views[k as int]);
            }
            if segs[k].len() > width {
                width = segs[k].len();
            }
            k = k + 1;
        }
        assert(seg_views.take(segs@.len() as int) =~= seg_views);
        Dimension { width, height }
    }

    /// The component-wise maximum of the two dimensions.
    pub fn max_merge(dim_one: Dimension, dim_two: Dimension) -> (r: Dimension)
        ensures
            r == merged(dim_one, dim_two),
    {
        let width = if dim_one.width >= dim_two.width {
            dim_one.width
        } else {
            dim_two.width
        };
        let height = if dim_one.height >= dim_two.height {
            dim_one.height
        } else {
            dim_two.height
        };
        Dimension { width, height }
    }
}

impl Default for Dimension {
    /// The zero dimension, the starting point when folding merges.
    fn default() -> (d: Dimension)
        ensures
            d.width == 0 && d.height == 0,
    {
        Dimension { width: 0, height: 0 }
    }
}

/// The line at index `k`, or the empty line past the end.
pub open spec fn line_at(lines: Seq<Seq<char>>, k: int) -> Seq<char> {
    if 0 <= k < lines.len() {
        lines[k]
    } else {
        Seq::empty()
    }
}

/// One cell of the grid: a column value held as its physical lines,
/// together with its measured dimension.
#[derive(Debug, PartialEq, Eq)]
pub struct Cell {
    pub data: Vec<String>,
    pub dimension: Dimension,
}

impl Cell {
    /// Create a Cell from a String by splitting it line by line.
    pub fn from_string(string: &String) -> (r: Cell)
        ensures
            string_views(r.data@) == split_newlines(string@),
            r.dimension.width == text_width(string@),
            r.dimension.height == text_height(string@),
    {
        let dimension = Dimension::from_string(string);
        let chars = str_to_chars(string.as_str());
        let segs = split_newline_segments(&chars);
        let ghost seg_views = split_newlines(string@);
        let mut data: Vec<String> = Vec::new();
        let mut k: usize = 0;
        proof {
            assert(string_views(data@) =~= seg_views.take(0));
        }
        while k < segs.len()
            invariant
                k <= segs@.len(),
                char_views(segs@) == seg_views,
                string_views(data@) == seg_views.take(k as int),
            decreases segs@.len() - k,
        {
            let ghost before = data@;
            let line = chars_to_string(&segs[k]);
            assert(line@ == seg_views[k as int]);
            data.push(line);
            proof {
                assert(data@ == before.push(line));
                assert(before.len() == string_views(before).len());
                assert(string_views(before).len() == k);
                assert(data@.len() == k + 1);
                assert(data@[k as int]@ == seg_views[k as int]);
                assert forall|t: int| 0 <= t < k + 1 implies string_views(data@)[t]
                    == seg_views.take(k + 1 as int)[t] by {
                    if t < k {
                        assert(data@[t] == before[t]);
                        assert(string_views(before)[t] == seg_views.take(k as int)[t]);
                    }
                }
                assert(string_views(data@) =~= seg_views.take(k + 1 as int));
            }
            k = k + 1;
        }
        assert(seg_views.take(segs@.len() as int) =~= seg_views);
        Cell { data, dimension }
    }

    /// The line at index `line`, or an empty string when the cell has no
    /// line there; querying past the end is how short cells are padded.
    pub fn get_line(&self, line: usize) -> (r: String)
        ensures
            r@ == line_at(string_views(self.data@), line as int),
    {
        if line < self.data.len() {
            self.data[line].clone()
        } else {
            String::new()
        }
    }
}

/// The widest natural cell width among the row's values.
pub open spec fn row_max_width(vals: Seq<Seq<char>>) -> nat
    decreases vals.len(),
{
    if vals.len() == 0 {
        0nat
    } else if text_width(vals.last()) > row_max_width(vals.drop_last()) {
        text_width(vals.last())
    } else {
        row_max_width(vals.drop_last())
    }
}

/// The tallest natural cell height among the row's values.
pub open spec fn row_max_height(vals: Seq<Seq<char>>) -> nat
    decreases vals.len(),
{
    if vals.len() == 0 {
        0nat
    } else if text_height(vals.last()) > row_max_height(vals.drop_last()) {
        text_height(vals.last())
    } else {
        row_max_height(vals.drop_last())
    }
}

/// No value of the row is wider or taller than the row's maxima.
pub proof fn lemma_row_max_bound(vals: Seq<Seq<char>>)
    ensures
        forall|j: int|
            0 <= j < vals.len() ==> text_width(#[trigger] vals[j]) <= row_max_width(vals)
                && text_height(vals[j]) <= row_max_height(vals),
    decreases vals.len(),
{
    if vals.len() > 0 {
        lemma_row_max_bound(vals.drop_last());
        assert(forall|j: int| 0 <= j < vals.len() - 1 ==> vals[j] == vals.drop_last()[j]);
    }
}

/// Whether `rc` is the cell structure measured from the row values `vals`.
pub open spec fn row_cells_match(rc: RowCells, vals: Seq<Seq<char>>) -> bool {
    &&& rc.cells@.len() == vals.len()
    &&& forall|j: int|
        0 <= j < vals.len() ==> string_views((#[trigger] rc.cells@[j]).data@) == split_newlines(
            vals[j],
        )
    &&& forall|j: int|
        0 <= j < vals.len() ==> (#[trigger] rc.cells@[j]).dimension.width == text_width(vals[j])
            && rc.cells@[j].dimension.height == text_height(vals[j])
    &&& rc.max_dimension.width == row_max_width(vals)
    &&& rc.max_dimension.height == row_max_height(vals)
}

/// One row's cells together with the merge of their dimensions.
#[derive(Debug, PartialEq, Eq)]
pub struct RowCells {
    pub max_dimension: Dimension,
    pub cells: Vec<Cell>,
}

impl RowCells {
    /// Build one cell per column value and record the row's largest cell
    /// dimension.
    pub fn from_row(row: &Row) -> (r: RowCells)
        ensures
            row_cells_match(r, row@),
    {
        let mut cells: Vec<Cell> = Vec::new();
        let mut max_dimension = Dimension::default();
        let mut j: usize = 0;
        proof {
            assert(row@.take(0) =~= Seq::<Seq<char>>::empty());
        }
        while j < row.values.len()
            invariant
                j <= row.values@.len(),
                row@.len() == row.values@.len(),
                cells@.len() == j,
                forall|k: int|
                    0 <= k < j ==> string_views((#[trigger] cells@[k]).data@) == split_newlines(
                        row@[k],
                    ),
                forall|k: int|
                    0 <= k < j ==> (#[trigger] cells@[k]).dimension.width == text_width(row@[k])
                        && cells@[k].dimension.height == text_height(row@[k]),
                max_dimension.width == row_max_width(row@.take(j as int)),
                max_dimension.height == row_max_height(row@.take(j as int)),
            decreases row.values@.len() - j,
        {
            proof {
                assert(row@.take(j + 1 as int).drop_last() =~= row@.take(j as int));
                assert(row@.take(j + 1 as int).last() == row@[j as int]);
                assert(row@[j as int] == row.values@[j as int]@);
            }
            let cell = Cell::from_string(&row.values[j]);
            max_dimension = Dimension::max_merge(max_dimension, cell.dimension);
            cells.push(cell);
            j = j + 1;
        }
        assert(row@.take(row.values@.len() as int) =~= row@);
        RowCells { max_dimension, cells }
    }

    /// The cells' lines at index `line`, one string per column; a cell
    /// shorter than `line` contributes an empty string.
    pub fn get_line_values(&self, line: usize) -> (r: Vec<String>)
        ensures
            r@.len() == self.cells@.len(),
            forall|j: int|
                0 <= j < r@.len() ==> (#[trigger] r@[j])@ == line_at(
                    string_views(self.cells@[j].data@),
                    line as int,
                ),
    {
        let mut r: Vec<String> = Vec::new();
        let mut j: usize = 0;
        while j < self.cells.len()
            invariant
                j <= self.cells@.len(),
                r@.len() == j,
                forall|k: int|
                    0 <= k < j ==> (#[trigger] r@[k])@ == line_at(
                        string_views(self.cells@[k].data@),
                        line as int,
                    ),
            decreases self.cells@.len() - j,
        {
            r.push(self.cells[j].get_line(line));
            j = j + 1;
        }
        r
    }
}

/// The views of a sequence of rows.
pub open spec fn rows_views(rows: Seq<Row>) -> Seq<Seq<Seq<char>>> {
    rows.map_values(|r: Row| r@)
}

/// The widest natural cell width over all rows.
pub open spec fn table_max_width(rows: Seq<Seq<Seq<char>>>) -> nat
    decreases rows.len(),
{
    if rows.len() == 0 {
        0nat
    } else if row_max_width(rows.last()) > table_max_width(rows.drop_last()) {
        row_max_width(rows.last())
    } else {
        table_max_width(rows.drop_last())
    }
}

/// The tallest natural cell height over all rows.
pub open spec fn table_max_height(rows: Seq<Seq<Seq<char>>>) -> nat
    decreases rows.len(),
{
    if rows.len() == 0 {
        0nat
    } else if row_max_height(rows.last()) > table_max_height(rows.drop_last()) {
        row_max_height(rows.last())
    } else {
        table_max_height(rows.drop_last())
    }
}

/// No row's maxima exceed the table's maxima.
pub proof fn lemma_table_max_bound(rows: Seq<Seq<Seq<char>>>)
    ensures
        forall|i: int|
            0 <= i < rows.len() ==> row_max_width(#[trigger] rows[i]) <= table_max_width(rows)
                && row_max_height(rows[i]) <= table_max_height(rows),
    decreases rows.len(),
{
    if rows.len() > 0 {
        lemma_table_max_bound(rows.drop_last());
        assert(forall|i: int| 0 <= i < rows.len() - 1 ==> rows[i] == rows.drop_last()[i]);
    }
}

/// The cell structure of a whole table: one `RowCells` per row, plus the
/// single shared cell dimension, the merge of all rows' maxima.
#[derive(Debug, PartialEq, Eq)]
pub struct TableCells {
    pub row_cells: Vec<RowCells>,
    pub cell_dimension: Dimension,
    pub columns: usize,
}

impl TableCells {
    /// Every row holds exactly `columns` cells and no physical line of any
    /// cell is wider than the shared cell dimension; what rendering at the
    /// shared width relies on.
    pub open spec fn wf(self) -> bool {
        &&& forall|i: int|
            0 <= i < self.row_cells@.len() ==> (#[trigger] self.row_cells@[i]).cells@.len()
                == self.columns
        &&& forall|i: int, j: int, k: int|
            0 <= i < self.row_cells@.len() && 0 <= j < self.row_cells@[i].cells@.len() && 0 <= k
                < self.row_cells@[i].cells@[j].data@.len() ==> (
            #[trigger] self.row_cells@[i].cells@[j].data@[k])@.len()
                <= self.cell_dimension.width
    }

    /// Measure every row and merge all row maxima into the shared cell
    /// dimension.  A row whose arity differs from `columns` is rejected
    /// before any layout work.
    pub fn from_rows(rows: Vec<Row>, columns: usize) -> (r: Result<TableCells, TableError>)
        ensures
            (r is Ok) <==> (forall|i: int|
                0 <= i < rows@.len() ==> (#[trigger] rows@[i])@.len() == columns),
            r matches Ok(tc) ==> {
                &&& tc.columns == columns
                &&& tc.row_cells@.len() == rows@.len()
                &&& forall|i: int|
                    0 <= i < rows@.len() ==> row_cells_match(
                        #[trigger] tc.row_cells@[i],
                        rows@[i]@,
                    )
                &&& tc.cell_dimension.width == table_max_width(rows_views(rows@))
                &&& tc.cell_dimension.height == table_max_height(rows_views(rows@))
                &&& tc.wf()
            },
            (r is Err) ==> r == Err::<TableCells, TableError>(TableError::ArityMismatch),
    {
        let ghost all_views = rows_views(rows@);
        let mut row_cells: Vec<RowCells> = Vec::new();
        let mut cell_dimension = Dimension::default();
        let mut i: usize = 0;
        proof {
            assert(all_views.take(0) =~= Seq::<Seq<Seq<char>>>::empty());
        }
        while i < rows.len()
            invariant
                i <= rows@.len(),
                all_views == rows_views(rows@),
                row_cells@.len() == i,
                forall|k: int| 0 <= k < i ==> (#[trigger] rows@[k])@.len() == columns,
                forall|k: int|
                    0 <= k < i ==> row_cells_match(#[trigger] row_cells@[k], rows@[k]@),
                cell_dimension.width == table_max_width(all_views.take(i as int)),
                cell_dimension.height == table_max_height(all_views.take(i as int)),
            decreases rows@.len() - i,
        {
            if rows[i].values.len() != columns {
                assert(rows@[i as int]@.len() != columns);
                return Err(TableError::ArityMismatch);
            }
            proof {
                assert(all_views.take(i + 1 as int).drop_last() =~= all_views.take(i as int));
                assert(all_views.take(i + 1 as int).last() == rows@[i as int]@);
            }
            let rc = RowCells::from_row(&rows[i]);
            cell_dimension = Dimension::max_merge(cell_dimension, rc.max_dimension);
            row_cells.push(rc);
            i = i + 1;
        }
        assert(all_views.take(rows@.len() as int) =~= all_views);
        let tc = TableCells { row_cells, cell_dimension, columns };
        proof {
            lemma_table_max_bound(all_views);
            assert forall|i2: int, j: int, k: int|
                0 <= i2 < tc.row_cells@.len() && 0 <= j < tc.row_cells@[i2].cells@.len() && 0 <= k
                    < tc.row_cells@[i2].cells@[j].data@.len() implies (
            #[trigger] tc.row_cells@[i2].cells@[j].data@[k])@.len()
                <= tc.cell_dimension.width by {
                let vals = rows@[i2]@;
                assert(row_cells_match(tc.row_cells@[i2], vals));
                assert(string_views(tc.row_cells@[i2].cells@[j].data@) == split_newlines(vals[j]));
                assert(tc.row_cells@[i2].cells@[j].data@[k]@ == split_newlines(vals[j])[k]);
                lemma_max_len_bound(split_newlines(vals[j]));
                lemma_row_max_bound(vals);
                assert(all_views[i2] == vals);
                assert(text_width(vals[j]) <= row_max_width(vals));
                assert(row_max_width(vals) <= table_max_width(all_views));
            }
        }
        Ok(tc)
    }
}

} // verus!
