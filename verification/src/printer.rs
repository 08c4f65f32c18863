//! The border/content renderer for a table measured under one shared cell
//! dimension: every cell box has the same width and height.

use vstd::prelude::*;

use crate::cells::line_at;
use crate::cells::Dimension;
use crate::cells::RowCells;
use crate::cells::TableCells;
use crate::text::string_push_char;
use crate::text::string_views;

verus! {

/// The printed width of one row: each of the `columns` cells takes
/// `cell.width + 2` characters plus a delimiter, and one further delimiter
/// closes the line.
pub open spec fn spec_printed_row_width(cell: Dimension, columns: nat) -> nat {
    ((cell.width + 2) * columns + columns + 1) as nat
}

/// The printed height of one row: the cell height plus top border, top
/// padding, bottom padding and bottom border.
pub open spec fn spec_printed_row_height(cell: Dimension) -> nat {
    (cell.height + 4) as nat
}

/// A full border line: `+` at the start and at every multiple of
/// `cell_width + 3`, `-` elsewhere.
pub open spec fn border_line(row_width: nat, cell_width: nat) -> Seq<char> {
    Seq::new(
        row_width,
        |i: int|
            if i % ((cell_width + 3) as int) == 0 {
                '+'
            } else {
                '-'
            },
    )
}

/// A blank padding line: `|` at the delimiter positions, spaces elsewhere.
pub open spec fn blank_line(row_width: nat, cell_width: nat) -> Seq<char> {
    Seq::new(
        row_width,
        |i: int|
            if i % ((cell_width + 3) as int) == 0 {
                '|'
            } else {
                ' '
            },
    )
}

/// `n` spaces.
pub open spec fn spaces(n: nat) -> Seq<char> {
    Seq::new(n, |i: int| ' ')
}

/// The cell parts of a content line: for each value a space, the value,
/// padding up to the cell width, a space and the closing delimiter.
pub open spec fn content_cells(vals: Seq<Seq<char>>, cell_width: nat) -> Seq<char>
    decreases vals.len(),
{
    if vals.len() == 0 {
        Seq::empty()
    } else {
        seq![' '] + vals[0] + spaces((cell_width - vals[0].len()) as nat) + seq![' ', '|']
            + content_cells(vals.drop_first(), cell_width)
    }
}

/// A content line: the opening delimiter followed by the padded cell
/// values; empty when the row has no cells.
pub open spec fn content_line(vals: Seq<Seq<char>>, cell_width: nat) -> Seq<char> {
    if vals.len() == 0 {
        Seq::empty()
    } else {
        seq!['|'] + content_cells(vals, cell_width)
    }
}

/// The cells' lines at index `k`, one per cell, empty past a cell's end.
pub open spec fn row_line_values(rc: RowCells, k: int) -> Seq<Seq<char>> {
    Seq::new(rc.cells@.len() as nat, |j: int| line_at(string_views(rc.cells@[j].data@), k))
}

/// The printed lines of one row: a leading border only for the first row
/// of the table, a blank padding line, one content line per cell line, a
/// blank padding line and the closing border.
pub open spec fn printed_row_lines(rc: RowCells, cell: Dimension, columns: nat, first: bool) -> Seq<
    Seq<char>,
> {
    let rw = spec_printed_row_width(cell, columns);
    let border = border_line(rw, cell.width as nat);
    let blank = blank_line(rw, cell.width as nat);
    let contents = Seq::new(
        cell.height as nat,
        |k: int| content_line(row_line_values(rc, k), cell.width as nat),
    );
    (if first {
        seq![border]
    } else {
        Seq::empty()
    }) + seq![blank] + contents + seq![blank, border]
}

/// The printed lines of the first `n` rows of the table.
pub open spec fn printer_lines_upto(tc: TableCells, n: int) -> Seq<Seq<char>>
    decreases n,
{
    if n <= 0 {
        Seq::empty()
    } else {
        printer_lines_upto(tc, n - 1) + printed_row_lines(
            tc.row_cells@[n - 1],
            tc.cell_dimension,
            tc.columns as nat,
            n - 1 == 0,
        )
    }
}

/// The printed lines of the whole table.
pub open spec fn printer_lines(tc: TableCells) -> Seq<Seq<char>> {
    printer_lines_upto(tc, tc.row_cells@.len() as int)
}

/// The renderer for a measured table: walks the grid row by row and line
/// by line, emitting borders, padding and padded cell values.
pub struct Printer {
    table_cells: TableCells,
    printed_row_dimension: Dimension,
}

impl Printer {
    /// The measured table this printer renders.
    pub closed spec fn spec_cells(&self) -> TableCells {
        self.table_cells
    }

    /// The printer holds a well-formed table and the printed row dimension
    /// derived from it.
    pub closed spec fn wf(&self) -> bool {
        &&& self.table_cells.wf()
        &&& self.table_cells.cell_dimension.width + 3 <= usize::MAX
        &&& self.printed_row_dimension.width == spec_printed_row_width(
            self.table_cells.cell_dimension,
            self.table_cells.columns as nat,
        )
        &&& self.printed_row_dimension.height == spec_printed_row_height(
            self.table_cells.cell_dimension,
        )
    }

    /// A printer for the given measured table.  The table must be
    /// well-formed — rendering is only ever invoked on values already
    /// fitted to the shared cell dimension — and its printed row must fit
    /// the machine's integer range.
    pub fn new(table_cells: TableCells) -> (r: Printer)
        requires
            table_cells.wf(),
            table_cells.cell_dimension.width + 3 <= usize::MAX,
            spec_printed_row_width(table_cells.cell_dimension, table_cells.columns as nat)
                <= usize::MAX,
            spec_printed_row_height(table_cells.cell_dimension) <= usize::MAX,
        ensures
            r.spec_cells() == table_cells,
            r.wf(),
    {
        let printed_row_dimension = Self::calculate_printed_row_dimension(
            table_cells.cell_dimension,
            table_cells.columns,
        );
        Printer { printed_row_dimension, table_cells }
    }

    /// The dimension of one printed row: bordered width and padded height.
    fn calculate_printed_row_dimension(cell_dimension: Dimension, columns: usize) -> (r: Dimension)
        requires
            cell_dimension.width + 3 <= usize::MAX,
            spec_printed_row_width(cell_dimension, columns as nat) <= usize::MAX,
            spec_printed_row_height(cell_dimension) <= usize::MAX,
        ensures
            r.width == spec_printed_row_width(cell_dimension, columns as nat),
            r.height == spec_printed_row_height(cell_dimension),
    {
        let width = (cell_dimension.width + 2) * columns + columns + 1;
        let height = cell_dimension.height + 4;
        Dimension { width, height }
    }

    /// Render the whole table: the lines of every row in order, with the
    /// top border emitted once before the first row.
    pub fn print_to(&self) -> (r: Vec<String>)
        requires
            self.wf(),
        ensures
            string_views(r@) == printer_lines(self.spec_cells()),
    {
        let mut out: Vec<String> = Vec::new();
        let mut i: usize = 0;
        proof {
            assert(string_views(out@) =~= Seq::<Seq<char>>::empty());
        }
        while i < self.table_cells.row_cells.len()
            invariant
                self.wf(),
                i <= self.table_cells.row_cells@.len(),
                string_views(out@) == printer_lines_upto(self.spec_cells(), i as int),
            decreases self.table_cells.row_cells@.len() - i,
        {
            self.print_row(i, &self.table_cells.row_cells[i], &mut out);
            i = i + 1;
        }
        out
    }

    /// Append the printed lines of one row: its border line when it is the
    /// first row, a blank line, its content lines, a blank line and the
    /// closing border.
    fn print_row(&self, row_index: usize, row_cells: &RowCells, out: &mut Vec<String>)
        requires
            self.wf(),
            row_index < self.spec_cells().row_cells@.len(),
            *row_cells == self.spec_cells().row_cells@[row_index as int],
        ensures
            string_views(final(out)@) == string_views(old(out)@) + printed_row_lines(
                *row_cells,
                self.spec_cells().cell_dimension,
                self.spec_cells().columns as nat,
                row_index == 0,
            ),
    {
        let ghost target = printed_row_lines(
            *row_cells,
            self.spec_cells().cell_dimension,
            self.spec_cells().columns as nat,
            row_index == 0,
        );
        let ghost base = string_views(old(out)@);
        let ghost b0: int = if row_index == 0 {
            1int
        } else {
            0int
        };
        let ghost cell_h = self.table_cells.cell_dimension.height as int;
        proof {
            assert(target.len() == b0 + cell_h + 3);
            assert(base + target.take(0) =~= base);
        }
        let height = self.printed_row_dimension.height;
        let mut current_line: usize = 0;
        let mut i: usize = 0;
        while i < height
            invariant
                self.wf(),
                row_index < self.spec_cells().row_cells@.len(),
                *row_cells == self.spec_cells().row_cells@[row_index as int],
                height == self.printed_row_dimension.height,
                height == cell_h + 4,
                b0 == if row_index == 0 {
                    1int
                } else {
                    0int
                },
                target == printed_row_lines(
                    *row_cells,
                    self.spec_cells().cell_dimension,
                    self.spec_cells().columns as nat,
                    row_index == 0,
                ),
                target.len() == b0 + cell_h + 3,
                base == string_views(old(out)@),
                i <= height,
                current_line as int == if i <= 2 {
                    0int
                } else if i <= height - 2 {
                    i - 2
                } else {
                    cell_h
                },
                string_views(out@) == base + target.take(
                    if i == 0 {
                        0int
                    } else {
                        b0 + i - 1
                    },
                ),
            decreases height - i,
        {
            let ghost emitted: int = if i == 0 {
                0int
            } else {
                b0 + i - 1
            };
            if i == 0 && row_index == 0 {
                let line = self.create_full_line();
                push_line(out, line, Ghost(base), Ghost(target), Ghost(emitted));
            } else if i == 0 {
                // The border between two rows was already written as the
                // previous row's bottom border.
            } else if i == height - 1 {
                let line = self.create_full_line();
                proof {
                    assert(target[emitted] == target.last());
                }
                push_line(out, line, Ghost(base), Ghost(target), Ghost(emitted));
            } else if i == 1 || i == height - 2 {
                let line = self.create_blank_line();
                proof {
                    if i == 1 {
                        assert(target[emitted] == blank_line(
                            spec_printed_row_width(
                                self.spec_cells().cell_dimension,
                                self.spec_cells().columns as nat,
                            ),
                            self.spec_cells().cell_dimension.width as nat,
                        ));
                    } else {
                        assert(emitted == b0 + cell_h + 1);
                        assert(target[emitted] == blank_line(
                            spec_printed_row_width(
                                self.spec_cells().cell_dimension,
                                self.spec_cells().columns as nat,
                            ),
                            self.spec_cells().cell_dimension.width as nat,
                        ));
                    }
                }
                push_line(out, line, Ghost(base), Ghost(target), Ghost(emitted));
            } else {
                let values = row_cells.get_line_values(current_line);
                proof {
                    assert(string_views(values@) =~= row_line_values(
                        *row_cells,
                        current_line as int,
                    ));
                    assert forall|j: int| 0 <= j < values@.len() implies (#[trigger] string_views(
                        values@,
                    )[j]).len() <= self.spec_cells().cell_dimension.width by {
                        let lines = string_views(row_cells.cells@[j].data@);
                        if 0 <= current_line < lines.len() {
                            assert(string_views(values@)[j] == row_cells.cells@[j].data@[current_line as int]@);
                        } else {
                            assert(string_views(values@)[j] =~= Seq::<char>::empty());
                        }
                    }
                }
                let line = self.create_cell_values_line(values);
                proof {
                    assert(2 <= i < height - 2);
                    assert(emitted == b0 + 1 + (i - 2));
                    assert(target[emitted] == content_line(
                        row_line_values(*row_cells, i - 2),
                        self.spec_cells().cell_dimension.width as nat,
                    ));
                }
                push_line(out, line, Ghost(base), Ghost(target), Ghost(emitted));
                current_line = current_line + 1;
            }
            i = i + 1;
        }
        assert(target.take(b0 + height - 1) =~= target);
    }

    /// The full border line for this table's printed row width.
    fn create_full_line(&self) -> (r: String)
        requires
            self.wf(),
        ensures
            r@ == border_line(
                spec_printed_row_width(
                    self.spec_cells().cell_dimension,
                    self.spec_cells().columns as nat,
                ),
                self.spec_cells().cell_dimension.width as nat,
            ),
    {
        let row_width = self.printed_row_dimension.width;
        let cell_width = self.table_cells.cell_dimension.width;
        let ghost target = border_line(row_width as nat, cell_width as nat);
        let mut line = String::new();
        let mut i: usize = 0;
        proof {
            assert(line@ =~= target.take(0));
        }
        while i < row_width
            invariant
                self.wf(),
                row_width == self.printed_row_dimension.width,
                cell_width == self.table_cells.cell_dimension.width,
                cell_width + 3 <= usize::MAX,
                target == border_line(row_width as nat, cell_width as nat),
                i <= row_width,
                line@ == target.take(i as int),
            decreases row_width - i,
        {
            let c = if i % (cell_width + 3) == 0 {
                '+'
            } else {
                '-'
            };
            string_push_char(&mut line, c);
            proof {
                assert(target[i as int] == c);
                assert(line@ =~= target.take(i + 1));
            }
            i = i + 1;
        }
        assert(target.take(row_width as int) =~= target);
        line
    }

    /// The blank padding line for this table's printed row width.
    fn create_blank_line(&self) -> (r: String)
        requires
            self.wf(),
        ensures
            r@ == blank_line(
                spec_printed_row_width(
                    self.spec_cells().cell_dimension,
                    self.spec_cells().columns as nat,
                ),
                self.spec_cells().cell_dimension.width as nat,
            ),
    {
        let row_width = self.printed_row_dimension.width;
        let cell_width = self.table_cells.cell_dimension.width;
        let ghost target = blank_line(row_width as nat, cell_width as nat);
        let mut line = String::new();
        let mut i: usize = 0;
        proof {
            assert(line@ =~= target.take(0));
        }
        while i < row_width
            invariant
                self.wf(),
                row_width == self.printed_row_dimension.width,
                cell_width == self.table_cells.cell_dimension.width,
                cell_width + 3 <= usize::MAX,
                target == blank_line(row_width as nat, cell_width as nat),
                i <= row_width,
                line@ == target.take(i as int),
            decreases row_width - i,
        {
            let c = if i % (cell_width + 3) == 0 {
                '|'
            } else {
                ' '
            };
            string_push_char(&mut line, c);
            proof {
                assert(target[i as int] == c);
                assert(line@ =~= target.take(i + 1));
            }
            i = i + 1;
        }
        assert(target.take(row_width as int) =~= target);
        line
    }

    /// One content line: every value preceded by a delimiter and a space
    /// and padded with spaces to the shared cell width.
    fn create_cell_values_line(&self, cell_values: Vec<String>) -> (r: String)
        requires
            self.wf(),
            forall|j: int|
                0 <= j < cell_values@.len() ==> (#[trigger] string_views(cell_values@)[j]).len()
                    <= self.spec_cells().cell_dimension.width,
        ensures
            r@ == content_line(
                string_views(cell_values@),
                self.spec_cells().cell_dimension.width as nat,
            ),
    {
        let cell_width = self.table_cells.cell_dimension.width;
        let ghost vals = string_views(cell_values@);
        let ghost cw = cell_width as nat;
        let mut line = String::new();
        let mut j: usize = 0;
        while j < cell_values.len()
            invariant
                self.wf(),
                cell_width == self.spec_cells().cell_dimension.width,
                cw == cell_width as nat,
                vals == string_views(cell_values@),
                forall|t: int| 0 <= t < vals.len() ==> (#[trigger] vals[t]).len() <= cell_width,
                j <= cell_values@.len(),
                j == 0 ==> line@ == Seq::<char>::empty(),
                j > 0 ==> line@ + content_cells(vals.skip(j as int), cw) == content_line(vals, cw),
            decreases cell_values@.len() - j,
        {
            let ghost rem = vals.skip(j as int);
            proof {
                assert(rem[0] == vals[j as int]);
                assert(rem.drop_first() =~= vals.skip(j + 1));
                assert(content_cells(rem, cw) == seq![' '] + rem[0] + spaces(
                    (cw - rem[0].len()) as nat,
                ) + seq![' ', '|'] + content_cells(rem.drop_first(), cw));
            }
            let ghost at_entry = line@;
            if j == 0 {
                string_push_char(&mut line, '|');
            }
            string_push_char(&mut line, ' ');
            line.append(cell_values[j].as_str());
            let val_len = cell_values[j].as_str().unicode_len();
            let whitespace = cell_width - val_len;
            let mut k: usize = 0;
            let ghost padded_base = line@;
            while k < whitespace
                invariant
                    k <= whitespace,
                    line@ == padded_base + spaces(k as nat),
                decreases whitespace - k,
            {
                string_push_char(&mut line, ' ');
                assert(line@ =~= padded_base + spaces((k + 1) as nat));
                k = k + 1;
            }
            string_push_char(&mut line, ' ');
            string_push_char(&mut line, '|');
            proof {
                let chunk = seq![' '] + rem[0] + spaces((cw - rem[0].len()) as nat) + seq![
                    ' ',
                    '|',
                ];
                assert(cell_values@[j as int]@ == rem[0]);
                if j == 0 {
                    assert(line@ =~= seq!['|'] + chunk);
                    assert(vals.len() > 0);
                    assert(content_line(vals, cw) == seq!['|'] + content_cells(vals.skip(0), cw))
                        by {
                        assert(vals.skip(0) =~= vals);
                    }
                    assert(seq!['|'] + chunk + content_cells(vals.skip(1), cw) =~= seq!['|'] + (
                    chunk + content_cells(vals.skip(1), cw)));
                    assert(line@ + content_cells(vals.skip(j + 1), cw) =~= content_line(vals, cw));
                } else {
                    assert(line@ =~= at_entry + chunk);
                    assert(at_entry + chunk + content_cells(vals.skip(j + 1), cw) =~= at_entry + (
                    chunk + content_cells(vals.skip(j + 1), cw)));
                    assert(line@ + content_cells(vals.skip(j + 1), cw) =~= content_line(vals, cw));
                }
            }
            j = j + 1;
        }
        proof {
            if cell_values@.len() == 0 {
                assert(line@ =~= content_line(vals, cw));
            } else {
                assert(vals.skip(cell_values@.len() as int) =~= Seq::<Seq<char>>::empty());
                assert(content_cells(Seq::empty(), cw) == Seq::<char>::empty());
                assert(line@ + Seq::<char>::empty() =~= line@);
            }
        }
        line
    }
}

/// Append one rendered line and account for it against the row's target
/// line sequence.
fn push_line(
    out: &mut Vec<String>,
    line: String,
    Ghost(base): Ghost<Seq<Seq<char>>>,
    Ghost(target): Ghost<Seq<Seq<char>>>,
    Ghost(emitted): Ghost<int>,
)
    requires
        0 <= emitted < target.len(),
        string_views(old(out)@) == base + target.take(emitted),
        line@ == target[emitted],
    ensures
        string_views(final(out)@) == base + target.take(emitted + 1),
{
    let ghost before = out@;
    out.push(line);
    proof {
        assert(string_views(before).len() == before.len());
        assert(before.len() == base.len() + emitted);
        assert(target.take(emitted + 1) =~= target.take(emitted).push(target[emitted]));
        assert forall|t: int| 0 <= t < out@.len() implies string_views(out@)[t] == (base
            + target.take(emitted + 1))[t] by {
            assert(string_views(out@)[t] == out@[t]@);
            if t < before.len() {
                assert(out@[t] == before[t]);
                assert(string_views(before)[t] == before[t]@);
                assert(string_views(before)[t] == (base + target.take(emitted))[t]);
                if t < base.len() {
                    assert((base + target.take(emitted))[t] == base[t]);
                    assert((base + target.take(emitted + 1))[t] == base[t]);
                } else {
                    assert((base + target.take(emitted))[t] == target.take(emitted)[t
                        - base.len()]);
                    assert((base + target.take(emitted + 1))[t] == target.take(emitted + 1)[t
                        - base.len()]);
                    assert(target.take(emitted)[t - base.len()] == target[t - base.len()]);
                    assert(target.take(emitted + 1)[t - base.len()] == target[t - base.len()]);
                }
            } else {
                assert(out@[t] == line);
                assert((base + target.take(emitted + 1))[t] == target.take(emitted + 1)[t
                    - base.len()]);
                assert(target.take(emitted + 1)[t - base.len()] == target[emitted]);
            }
        }
        assert(string_views(out@) =~= base + target.take(emitted + 1));
    }
}

} // verus!
