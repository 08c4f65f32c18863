//! The per-column renderer: every column is as wide as its policy-resolved
//! content, and cell content that exceeds a capped column is word-wrapped
//! before layout.

use vstd::prelude::*;

use crate::cells::line_at;
use crate::cells::Dimension;
use crate::printer::spaces;
use crate::string_utils::adapt_to_width;
use crate::table::Width;
use crate::text::adapted_to_width;
use crate::text::lemma_adapted_lines_bound;
use crate::text::split_newlines;
use crate::text::string_push_char;
use crate::text::string_views;
use crate::text::text_width;
use crate::TableError;

verus! {

/// The deep views of a sequence of string-vector rows.
pub open spec fn rows_deep(rows: Seq<Vec<String>>) -> Seq<Seq<Seq<char>>> {
    rows.map_values(|r: Vec<String>| string_views(r@))
}

/// A sequence of widths as mathematical naturals.
pub open spec fn usizes_as_nats(ws: Seq<usize>) -> Seq<nat> {
    ws.map_values(|w: usize| w as nat)
}

/// The widest natural content width in column `j` over all rows.
pub open spec fn col_natural_width(rows: Seq<Seq<Seq<char>>>, j: int) -> nat
    decreases rows.len(),
{
    if rows.len() == 0 {
        0nat
    } else if text_width(rows.last()[j]) > col_natural_width(rows.drop_last(), j) {
        text_width(rows.last()[j])
    } else {
        col_natural_width(rows.drop_last(), j)
    }
}

/// The width a column is rendered at: its natural width when `Dynamic`,
/// its natural width capped at the limit when `Max`.
pub open spec fn resolved_width(policy: Width, rows: Seq<Seq<Seq<char>>>, j: int) -> nat {
    match policy {
        Width::Dynamic => col_natural_width(rows, j),
        Width::Max(limit) => if col_natural_width(rows, j) < limit {
            col_natural_width(rows, j)
        } else {
            limit as nat
        },
    }
}

/// The resolved width of every column.
pub open spec fn widths_of(policies: Seq<Width>, rows: Seq<Seq<Seq<char>>>) -> Seq<nat> {
    Seq::new(policies.len(), |j: int| resolved_width(policies[j], rows, j))
}

/// `n` dashes.
pub open spec fn dashes(n: nat) -> Seq<char> {
    Seq::new(n, |i: int| '-')
}

/// The column parts of a full border line.
pub open spec fn full_line_cols_from(widths: Seq<nat>) -> Seq<char>
    decreases widths.len(),
{
    if widths.len() == 0 {
        Seq::empty()
    } else {
        dashes((widths[0] + 2) as nat) + seq!['+'] + full_line_cols_from(widths.drop_first())
    }
}

/// A full border line: `+`, then for every column its dashes and a `+`.
pub open spec fn full_line_cols(widths: Seq<nat>) -> Seq<char> {
    seq!['+'] + full_line_cols_from(widths)
}

/// The column parts of a blank padding line.
pub open spec fn empty_line_cols_from(widths: Seq<nat>) -> Seq<char>
    decreases widths.len(),
{
    if widths.len() == 0 {
        Seq::empty()
    } else {
        spaces((widths[0] + 2) as nat) + seq!['|'] + empty_line_cols_from(widths.drop_first())
    }
}

/// A blank padding line: `|`, then for every column its spaces and a `|`.
pub open spec fn empty_line_cols(widths: Seq<nat>) -> Seq<char> {
    seq!['|'] + empty_line_cols_from(widths)
}

/// The column parts of a content line: each value padded to its column's
/// width between single spaces, closed by the delimiter.
pub open spec fn content_line_cols_from(vals: Seq<Seq<char>>, widths: Seq<nat>) -> Seq<char>
    decreases vals.len(),
{
    if vals.len() == 0 {
        Seq::empty()
    } else {
        seq![' '] + vals[0] + spaces((widths[0] - vals[0].len()) as nat) + seq![' ', '|']
            + content_line_cols_from(vals.drop_first(), widths.drop_first())
    }
}

/// A content line: `|`, then every padded value.
pub open spec fn content_line_cols(vals: Seq<Seq<char>>, widths: Seq<nat>) -> Seq<char> {
    seq!['|'] + content_line_cols_from(vals, widths)
}

/// The physical lines of one cell after wrapping to its column's width.
pub open spec fn wrapped_cell_lines(val: Seq<char>, width: nat) -> Seq<Seq<char>> {
    split_newlines(adapted_to_width(val, width))
}

/// The greatest line count among per-column line sequences.
pub open spec fn max_lines_len(cells: Seq<Seq<Seq<char>>>) -> nat
    decreases cells.len(),
{
    if cells.len() == 0 {
        0nat
    } else if cells.last().len() > max_lines_len(cells.drop_last()) {
        cells.last().len()
    } else {
        max_lines_len(cells.drop_last())
    }
}

/// No column has more lines than `max_lines_len` of all columns.
pub proof fn lemma_max_lines_len_bound(cells: Seq<Seq<Seq<char>>>)
    ensures
        forall|j: int| 0 <= j < cells.len() ==> (#[trigger] cells[j]).len() <= max_lines_len(cells),
    decreases cells.len(),
{
    if cells.len() > 0 {
        lemma_max_lines_len_bound(cells.drop_last());
        assert(forall|j: int| 0 <= j < cells.len() - 1 ==> cells[j] == cells.drop_last()[j]);
    }
}

/// When every column has at most `bound` lines, so has the maximum.
pub proof fn lemma_max_lines_len_le(cells: Seq<Seq<Seq<char>>>, bound: nat)
    requires
        forall|j: int| 0 <= j < cells.len() ==> (#[trigger] cells[j]).len() <= bound,
    ensures
        max_lines_len(cells) <= bound,
    decreases cells.len(),
{
    if cells.len() > 0 {
        assert(forall|j: int|
            0 <= j < cells.len() - 1 ==> (#[trigger] cells.drop_last()[j]).len() <= bound);
        lemma_max_lines_len_le(cells.drop_last(), bound);
    }
}

/// The wrapped line sequences of one row, one per column.
pub open spec fn row_wrapped_cells(row: Seq<Seq<char>>, widths: Seq<nat>) -> Seq<Seq<Seq<char>>> {
    Seq::new(row.len(), |j: int| wrapped_cell_lines(row[j], widths[j]))
}

/// The number of content lines of one row: its tallest wrapped cell.
pub open spec fn row_content_height(row: Seq<Seq<char>>, widths: Seq<nat>) -> nat {
    max_lines_len(row_wrapped_cells(row, widths))
}

/// The values of one content line: each column's wrapped line at index
/// `k`, empty past that column's end.
pub open spec fn row_line_vals(row: Seq<Seq<char>>, widths: Seq<nat>, k: int) -> Seq<Seq<char>> {
    Seq::new(row.len(), |j: int| line_at(wrapped_cell_lines(row[j], widths[j]), k))
}

/// The printed lines of one row: padding, its content lines, padding and
/// the closing border.
pub open spec fn spec_row_lines(row: Seq<Seq<char>>, widths: Seq<nat>) -> Seq<Seq<char>> {
    seq![empty_line_cols(widths)] + Seq::new(
        row_content_height(row, widths),
        |k: int| content_line_cols(row_line_vals(row, widths, k), widths),
    ) + seq![empty_line_cols(widths), full_line_cols(widths)]
}

/// The printed lines of the first `n` rows.
pub open spec fn rows_lines_upto(
    rows: Seq<Seq<Seq<char>>>,
    widths: Seq<nat>,
    n: int,
) -> Seq<Seq<char>>
    decreases n,
{
    if n <= 0 {
        Seq::empty()
    } else {
        rows_lines_upto(rows, widths, n - 1) + spec_row_lines(rows[n - 1], widths)
    }
}

/// The whole rendered table: a leading border, then every row's lines.
pub open spec fn table_writer_lines(policies: Seq<Width>, rows: Seq<Seq<Seq<char>>>) -> Seq<
    Seq<char>,
> {
    let widths = widths_of(policies, rows);
    seq![full_line_cols(widths)] + rows_lines_upto(rows, widths, rows.len() as int)
}

/// The per-column renderer, configured with one width policy per column.
pub struct TableWriter {
    column_widths: Vec<Width>,
}

impl View for TableWriter {
    type V = Seq<Width>;

    closed spec fn view(&self) -> Seq<Width> {
        self.column_widths@
    }
}

impl TableWriter {
    /// A writer with the given width policies, one per column.
    pub fn new(column_widths: Vec<Width>) -> (r: TableWriter)
        ensures
            r@ == column_widths@,
    {
        TableWriter { column_widths }
    }

    /// Render the rows: resolve every column's width under its policy,
    /// wrap each cell to its column's width, and emit the bordered grid
    /// line by line.  A row whose arity differs from the number of
    /// policies is rejected before any layout work.
    pub fn write(self, rows: Vec<Vec<String>>) -> (r: Result<Vec<String>, TableError>)
        ensures
            (r is Ok) <==> (forall|i: int|
                0 <= i < rows@.len() ==> (#[trigger] rows@[i])@.len() == self@.len()),
            r matches Ok(lines) ==> string_views(lines@) == table_writer_lines(
                self@,
                rows_deep(rows@),
            ),
            (r is Err) ==> r == Err::<Vec<String>, TableError>(TableError::ArityMismatch),
    {
        let columns = self.column_widths.len();
        let ghost deep = rows_deep(rows@);
        let ghost policies = self@;
        let mut i: usize = 0;
        while i < rows.len()
            invariant
                i <= rows@.len(),
                columns == self.column_widths@.len(),
                forall|k: int| 0 <= k < i ==> (#[trigger] rows@[k])@.len() == columns,
            decreases rows@.len() - i,
        {
            if rows[i].len() != columns {
                assert(rows@[i as int]@.len() != columns);
                return Err(TableError::ArityMismatch);
            }
            i = i + 1;
        }
        let mut widths: Vec<usize> = Vec::new();
        let mut j: usize = 0;
        while j < columns
            invariant
                j <= columns,
                columns == self.column_widths@.len(),
                deep == rows_deep(rows@),
                policies == self@,
                forall|k: int| 0 <= k < rows@.len() ==> (#[trigger] rows@[k])@.len() == columns,
                widths@.len() == j,
                forall|t: int|
                    0 <= t < j ==> (#[trigger] widths@[t]) as nat == resolved_width(
                        policies[t],
                        deep,
                        t,
                    ),
            decreases columns - j,
        {
            let mut natural: usize = 0;
            let mut i2: usize = 0;
            proof {
                assert(deep.take(0) =~= Seq::<Seq<Seq<char>>>::empty());
            }
            while i2 < rows.len()
                invariant
                    i2 <= rows@.len(),
                    j < columns,
                    columns == self.column_widths@.len(),
                    deep == rows_deep(rows@),
                    forall|k: int| 0 <= k < rows@.len() ==> (#[trigger] rows@[k])@.len() == columns,
                    natural as nat == col_natural_width(deep.take(i2 as int), j as int),
                decreases rows@.len() - i2,
            {
                proof {
                    assert(deep.take(i2 + 1 as int).drop_last() =~= deep.take(i2 as int));
                    assert(deep.take(i2 + 1 as int).last() == deep[i2 as int]);
                    assert(deep[i2 as int] == string_views(rows@[i2 as int]@));
                    assert(deep[i2 as int][j as int] == rows@[i2 as int]@[j as int]@);
                }
                let d = Dimension::from_string(&rows[i2][j]);
                if d.width > natural {
                    natural = d.width;
                }
                i2 = i2 + 1;
            }
            assert(deep.take(rows@.len() as int) =~= deep);
            let resolved: usize = match self.column_widths[j] {
                Width::Dynamic => natural,
                Width::Max(limit) => if natural < limit {
                    natural
                } else {
                    limit
                },
            };
            widths.push(resolved);
            j = j + 1;
        }
        let ghost width_nats = usizes_as_nats(widths@);
        proof {
            assert(width_nats =~= widths_of(policies, deep));
        }
        let mut out: Vec<String> = Vec::new();
        let full = Self::write_full_line(&widths);
        out.push(full);
        let mut i3: usize = 0;
        proof {
            assert(string_views(out@) =~= seq![full_line_cols(width_nats)]);
            assert(string_views(out@) =~= seq![full_line_cols(width_nats)] + rows_lines_upto(
                deep,
                width_nats,
                0,
            ));
        }
        while i3 < rows.len()
            invariant
                i3 <= rows@.len(),
                columns == self.column_widths@.len(),
                widths@.len() == columns,
                deep == rows_deep(rows@),
                width_nats == usizes_as_nats(widths@),
                forall|k: int| 0 <= k < rows@.len() ==> (#[trigger] rows@[k])@.len() == columns,
                string_views(out@) == seq![full_line_cols(width_nats)] + rows_lines_upto(
                    deep,
                    width_nats,
                    i3 as int,
                ),
            decreases rows@.len() - i3,
        {
            proof {
                assert(deep[i3 as int] == string_views(rows@[i3 as int]@));
            }
            let mut row_lines = Self::row_to_lines(&rows[i3], &widths);
            let ghost rl_before = row_lines@;
            let ghost row_line_views = string_views(row_lines@);
            let ghost before = string_views(out@);
            let ghost out_before = out@;
            out.append(&mut row_lines);
            proof {
                assert(out@ == out_before + rl_before);
                assert forall|t: int| 0 <= t < out@.len() implies #[trigger] string_views(
                    out@,
                )[t] == (before + row_line_views)[t] by {
                    assert(string_views(out@)[t] == out@[t]@);
                    if t < before.len() {
                        assert(out@[t] == out_before[t]);
                        assert(string_views(out_before)[t] == out_before[t]@);
                    } else {
                        assert(out@[t] == rl_before[t - before.len()]);
                        assert(row_line_views[t - before.len()] == rl_before[t - before.len()]@);
                    }
                }
                assert(string_views(out@) =~= before + row_line_views);
                assert(rows_lines_upto(deep, width_nats, i3 + 1) == rows_lines_upto(
                    deep,
                    width_nats,
                    i3 as int,
                ) + spec_row_lines(deep[i3 as int], width_nats));
                assert(string_views(out@) =~= seq![full_line_cols(width_nats)] + rows_lines_upto(
                    deep,
                    width_nats,
                    i3 + 1,
                ));
            }
            i3 = i3 + 1;
        }
        Ok(out)
    }

    /// The printed lines of one row: wrap each cell to its column's width,
    /// then emit padding, the synchronized content lines, padding and the
    /// closing border.
    fn row_to_lines(row: &Vec<String>, widths: &Vec<usize>) -> (r: Vec<String>)
        requires
            row@.len() == widths@.len(),
        ensures
            string_views(r@) == spec_row_lines(string_views(row@), usizes_as_nats(widths@)),
    {
        let ghost row_views = string_views(row@);
        let ghost width_nats = usizes_as_nats(widths@);
        let mut wrapped: Vec<String> = Vec::new();
        let mut j: usize = 0;
        while j < row.len()
            invariant
                j <= row@.len(),
                row@.len() == widths@.len(),
                row_views == string_views(row@),
                width_nats == usizes_as_nats(widths@),
                wrapped@.len() == j,
                forall|t: int|
                    0 <= t < j ==> (#[trigger] wrapped@[t])@ == adapted_to_width(
                        row_views[t],
                        width_nats[t],
                    ),
            decreases row@.len() - j,
        {
            let w = adapt_to_width(row[j].as_str(), widths[j]);
            wrapped.push(w);
            j = j + 1;
        }
        let mut row_lines = RowLines::new(wrapped);
        let ghost cells = row_wrapped_cells(row_views, width_nats);
        proof {
            assert(cells.len() == row_lines.lines@.len());
            assert forall|t: int| 0 <= t < cells.len() implies string_views(
                #[trigger] row_lines.lines@[t]@,
            ) == cells[t] by {
                assert(wrapped@[t]@ == adapted_to_width(row_views[t], width_nats[t]));
            }
        }
        let height = Self::content_height(&row_lines);
        proof {
            assert(Seq::new(
                row_lines.lines@.len() as nat,
                |t: int| string_views(row_lines.lines@[t]@),
            ) =~= cells);
            lemma_max_lines_len_bound(cells);
        }
        let ghost target_contents = Seq::new(
            row_content_height(row_views, width_nats),
            |k: int| content_line_cols(row_line_vals(row_views, width_nats, k), width_nats),
        );
        let mut out: Vec<String> = Vec::new();
        let blank = Self::write_empty_line(widths);
        out.push(blank);
        proof {
            assert(string_views(out@) =~= seq![empty_line_cols(width_nats)] + target_contents.take(
                0,
            ));
        }
        loop
            invariant
                row_lines.lines@.len() == cells.len(),
                cells == row_wrapped_cells(row_views, width_nats),
                row_views.len() == width_nats.len(),
                row@.len() == widths@.len(),
                width_nats == usizes_as_nats(widths@),
                row_views == string_views(row@),
                height as nat == max_lines_len(cells),
                forall|t: int|
                    0 <= t < cells.len() ==> string_views(#[trigger] row_lines.lines@[t]@)
                        == cells[t],
                target_contents == Seq::new(
                    row_content_height(row_views, width_nats),
                    |k: int| content_line_cols(row_line_vals(row_views, width_nats, k), width_nats),
                ),
                row_lines.current_line <= height,
                string_views(out@) == seq![empty_line_cols(width_nats)] + target_contents.take(
                    row_lines.current_line as int,
                ),
            ensures
                string_views(out@) == seq![empty_line_cols(width_nats)] + target_contents,
            decreases height - row_lines.current_line,
        {
            let ghost k = row_lines.current_line as int;
            let next = row_lines.next_line();
            match next {
                Some(values) => {
                    proof {
                        lemma_max_lines_len_bound(cells);
                        let witness = choose|t: int|
                            0 <= t < cells.len() && k < (#[trigger] row_lines.lines@[t]@).len();
                        assert(cells[witness].len() == row_lines.lines@[witness]@.len());
                        assert(k < max_lines_len(cells));
                        assert forall|t: int| 0 <= t < values@.len() implies (
                        #[trigger] string_views(values@)[t]) == row_line_vals(
                            row_views,
                            width_nats,
                            k,
                        )[t] by {
                            assert(values@[t]@ == line_at(
                                string_views(row_lines.lines@[t]@),
                                k,
                            ));
                        }
                        assert(string_views(values@) =~= row_line_vals(
                            row_views,
                            width_nats,
                            k,
                        ));
                        assert forall|t: int| 0 <= t < values@.len() implies (
                        #[trigger] string_views(values@)[t]).len() <= width_nats[t] by {
                            lemma_adapted_lines_bound(row_views[t], width_nats[t]);
                            assert(string_views(values@)[t] == line_at(
                                wrapped_cell_lines(row_views[t], width_nats[t]),
                                k,
                            ));
                        }
                    }
                    let line = Self::write_content_line(values, widths);
                    let ghost before = string_views(out@);
                    let ghost out_before = out@;
                    out.push(line);
                    proof {
                        assert(target_contents[k] == content_line_cols(
                            row_line_vals(row_views, width_nats, k),
                            width_nats,
                        ));
                        assert(line@ == target_contents[k]);
                        let ghost head = seq![empty_line_cols(width_nats)];
                        assert(before == head + target_contents.take(k));
                        assert(before.len() == 1 + k);
                        assert(k + 1 <= target_contents.len());
                        assert forall|t: int| 0 <= t < out@.len() implies #[trigger] string_views(
                            out@,
                        )[t] == (head + target_contents.take(k + 1))[t] by {
                            assert(string_views(out@)[t] == out@[t]@);
                            if t < before.len() {
                                assert(out@[t] == out_before[t]);
                                assert(string_views(out_before)[t] == out_before[t]@);
                                assert(string_views(out_before)[t] == (head + target_contents.take(
                                    k,
                                ))[t]);
                                if t >= 1 {
                                    assert((head + target_contents.take(k))[t]
                                        == target_contents.take(k)[t - 1]);
                                    assert(target_contents.take(k)[t - 1] == target_contents[t
                                        - 1]);
                                    assert((head + target_contents.take(k + 1))[t]
                                        == target_contents.take(k + 1)[t - 1]);
                                    assert(target_contents.take(k + 1)[t - 1] == target_contents[t
                                        - 1]);
                                }
                            } else {
                                assert(out@[t] == line);
                                assert((head + target_contents.take(k + 1))[t]
                                    == target_contents.take(k + 1)[t - 1]);
                                assert(target_contents.take(k + 1)[t - 1] == target_contents[k]);
                            }
                        }
                        assert(string_views(out@) =~= seq![empty_line_cols(width_nats)]
                            + target_contents.take(k + 1));
                    }
                },
                None => {
                    proof {
                        assert forall|t: int| 0 <= t < cells.len() implies (
                        #[trigger] cells[t]).len() <= k by {
                            assert(cells[t].len() == row_lines.lines@[t]@.len());
                        }
                        lemma_max_lines_len_le(cells, k as nat);
                        assert(row_lines.current_line as int == height as int);
                        assert(target_contents.take(k) =~= target_contents);
                    }
                    break ;
                },
            }
        }
        let blank2 = Self::write_empty_line(widths);
        out.push(blank2);
        let full = Self::write_full_line(widths);
        out.push(full);
        proof {
            assert forall|t: int| 0 <= t < out@.len() implies #[trigger] string_views(out@)[t]
                == spec_row_lines(row_views, width_nats)[t] by {
                assert(string_views(out@)[t] == out@[t]@);
            }
            assert(string_views(out@) =~= spec_row_lines(row_views, width_nats));
        }
        out
    }

    /// The tallest wrapped cell of the row: its number of content lines.
    fn content_height(row_lines: &RowLines) -> (r: usize)
        ensures
            r as nat == max_lines_len(
                Seq::new(
                    row_lines.lines@.len() as nat,
                    |t: int| string_views(row_lines.lines@[t]@),
                ),
            ),
    {
        let ghost cells = Seq::new(
            row_lines.lines@.len() as nat,
            |t: int| string_views(row_lines.lines@[t]@),
        );
        let mut height: usize = 0;
        let mut t: usize = 0;
        proof {
            assert(cells.take(0) =~= Seq::<Seq<Seq<char>>>::empty());
        }
        while t < row_lines.lines.len()
            invariant
                t <= row_lines.lines@.len(),
                cells == Seq::new(
                    row_lines.lines@.len() as nat,
                    |t2: int| string_views(row_lines.lines@[t2]@),
                ),
                height as nat == max_lines_len(cells.take(t as int)),
            decreases row_lines.lines@.len() - t,
        {
            proof {
                assert(cells.take(t + 1 as int).drop_last() =~= cells.take(t as int));
                assert(cells.take(t + 1 as int).last() == cells[t as int]);
                assert(cells[t as int].len() == row_lines.lines@[t as int]@.len());
            }
            if row_lines.lines[t].len() > height {
                height = row_lines.lines[t].len();
            }
            t = t + 1;
        }
        assert(cells.take(row_lines.lines@.len() as int) =~= cells);
        height
    }

    /// The full border line for the given column widths.
    fn write_full_line(widths: &Vec<usize>) -> (r: String)
        ensures
            r@ == full_line_cols(usizes_as_nats(widths@)),
    {
        let ghost width_nats = usizes_as_nats(widths@);
        let mut line = String::new();
        string_push_char(&mut line, '+');
        let mut j: usize = 0;
        proof {
            assert(width_nats.skip(0) =~= width_nats);
        }
        while j < widths.len()
            invariant
                j <= widths@.len(),
                width_nats == usizes_as_nats(widths@),
                line@ + full_line_cols_from(width_nats.skip(j as int)) == full_line_cols(
                    width_nats,
                ),
            decreases widths@.len() - j,
        {
            let ghost rem = width_nats.skip(j as int);
            proof {
                assert(rem[0] == width_nats[j as int]);
                assert(rem.drop_first() =~= width_nats.skip(j + 1));
                assert(full_line_cols_from(rem) == dashes((rem[0] + 2) as nat) + seq!['+']
                    + full_line_cols_from(rem.drop_first()));
            }
            let ghost at_entry = line@;
            let w = widths[j];
            let mut k: usize = 0;
            while k < w
                invariant
                    k <= w,
                    line@ == at_entry + dashes(k as nat),
                decreases w - k,
            {
                string_push_char(&mut line, '-');
                assert(line@ =~= at_entry + dashes((k + 1) as nat));
                k = k + 1;
            }
            string_push_char(&mut line, '-');
            assert(line@ =~= at_entry + dashes((w + 1) as nat));
            string_push_char(&mut line, '-');
            assert(line@ =~= at_entry + dashes((w + 2) as nat));
            string_push_char(&mut line, '+');
            proof {
                assert(line@ =~= at_entry + (dashes((rem[0] + 2) as nat) + seq!['+']));
                assert(at_entry + (dashes((rem[0] + 2) as nat) + seq!['+'])
                    + full_line_cols_from(rem.drop_first()) =~= at_entry + full_line_cols_from(
                    rem,
                ));
            }
            j = j + 1;
        }
        proof {
            assert(width_nats.skip(widths@.len() as int) =~= Seq::<nat>::empty());
            assert(full_line_cols_from(Seq::<nat>::empty()) == Seq::<char>::empty());
            assert(line@ + Seq::<char>::empty() =~= line@);
        }
        line
    }

    /// The blank padding line for the given column widths.
    fn write_empty_line(widths: &Vec<usize>) -> (r: String)
        ensures
            r@ == empty_line_cols(usizes_as_nats(widths@)),
    {
        let ghost width_nats = usizes_as_nats(widths@);
        let mut line = String::new();
        string_push_char(&mut line, '|');
        let mut j: usize = 0;
        proof {
            assert(width_nats.skip(0) =~= width_nats);
        }
        while j < widths.len()
            invariant
                j <= widths@.len(),
                width_nats == usizes_as_nats(widths@),
                line@ + empty_line_cols_from(width_nats.skip(j as int)) == empty_line_cols(
                    width_nats,
                ),
            decreases widths@.len() - j,
        {
            let ghost rem = width_nats.skip(j as int);
            proof {
                assert(rem[0] == width_nats[j as int]);
                assert(rem.drop_first() =~= width_nats.skip(j + 1));
                assert(empty_line_cols_from(rem) == spaces((rem[0] + 2) as nat) + seq!['|']
                    + empty_line_cols_from(rem.drop_first()));
            }
            let ghost at_entry = line@;
            let w = widths[j];
            let mut k: usize = 0;
            while k < w
                invariant
                    k <= w,
                    line@ == at_entry + spaces(k as nat),
                decreases w - k,
            {
                string_push_char(&mut line, ' ');
                assert(line@ =~= at_entry + spaces((k + 1) as nat));
                k = k + 1;
            }
            string_push_char(&mut line, ' ');
            assert(line@ =~= at_entry + spaces((w + 1) as nat));
            string_push_char(&mut line, ' ');
            assert(line@ =~= at_entry + spaces((w + 2) as nat));
            string_push_char(&mut line, '|');
            proof {
                assert(line@ =~= at_entry + (spaces((rem[0] + 2) as nat) + seq!['|']));
                assert(at_entry + (spaces((rem[0] + 2) as nat) + seq!['|'])
                    + empty_line_cols_from(rem.drop_first()) =~= at_entry + empty_line_cols_from(
                    rem,
                ));
            }
            j = j + 1;
        }
        proof {
            assert(width_nats.skip(widths@.len() as int) =~= Seq::<nat>::empty());
            assert(empty_line_cols_from(Seq::<nat>::empty()) == Seq::<char>::empty());
            assert(line@ + Seq::<char>::empty() =~= line@);
        }
        line
    }

    /// One content line: every value padded with spaces to its column's
    /// width, between delimiters.
    fn write_content_line(strings: Vec<String>, widths: &Vec<usize>) -> (r: String)
        requires
            strings@.len() == widths@.len(),
            forall|j: int|
                0 <= j < strings@.len() ==> (#[trigger] string_views(strings@)[j]).len()
                    <= widths@[j],
        ensures
            r@ == content_line_cols(string_views(strings@), usizes_as_nats(widths@)),
    {
        let ghost vals = string_views(strings@);
        let ghost width_nats = usizes_as_nats(widths@);
        let mut line = String::new();
        string_push_char(&mut line, '|');
        let mut j: usize = 0;
        proof {
            assert(vals.skip(0) =~= vals);
            assert(width_nats.skip(0) =~= width_nats);
        }
        while j < strings.len()
            invariant
                j <= strings@.len(),
                strings@.len() == widths@.len(),
                vals == string_views(strings@),
                width_nats == usizes_as_nats(widths@),
                forall|t: int| 0 <= t < vals.len() ==> (#[trigger] vals[t]).len() <= width_nats[t],
                line@ + content_line_cols_from(vals.skip(j as int), width_nats.skip(j as int))
                    == content_line_cols(vals, width_nats),
            decreases strings@.len() - j,
        {
            let ghost rem = vals.skip(j as int);
            let ghost remw = width_nats.skip(j as int);
            proof {
                assert(rem[0] == vals[j as int]);
                assert(remw[0] == width_nats[j as int]);
                assert(rem.drop_first() =~= vals.skip(j + 1));
                assert(remw.drop_first() =~= width_nats.skip(j + 1));
                assert(content_line_cols_from(rem, remw) == seq![' '] + rem[0] + spaces(
                    (remw[0] - rem[0].len()) as nat,
                ) + seq![' ', '|'] + content_line_cols_from(rem.drop_first(), remw.drop_first()));
                assert(vals[j as int] == strings@[j as int]@);
            }
            let ghost at_entry = line@;
            string_push_char(&mut line, ' ');
            line.append(strings[j].as_str());
            let val_len = strings[j].as_str().unicode_len();
            let width = widths[j];
            let whitespace = width - val_len;
            let mut k: usize = 0;
            let ghost padded_base = line@;
            while k < whitespace
                invariant
                    k <= whitespace,
                    line@ == padded_base + spaces(k as nat),
                decreases whitespace - k,
            {
                string_push_char(&mut line, ' ');
                assert(line@ =~= padded_base + spaces((k + 1) as nat));
                k = k + 1;
            }
            string_push_char(&mut line, ' ');
            string_push_char(&mut line, '|');
            proof {
                let chunk = seq![' '] + rem[0] + spaces((remw[0] - rem[0].len()) as nat) + seq![
                    ' ',
                    '|',
                ];
                assert(line@ =~= at_entry + chunk);
                assert(at_entry + chunk + content_line_cols_from(
                    vals.skip(j + 1),
                    width_nats.skip(j + 1),
                ) =~= at_entry + (chunk + content_line_cols_from(
                    vals.skip(j + 1),
                    width_nats.skip(j + 1),
                )));
            }
            j = j + 1;
        }
        proof {
            assert(vals.skip(strings@.len() as int) =~= Seq::<Seq<char>>::empty());
            assert(content_line_cols_from(Seq::empty(), width_nats.skip(strings@.len() as int))
                == Seq::<char>::empty());
            assert(line@ + Seq::<char>::empty() =~= line@);
        }
        line
    }
}

/// The synchronized cursor over one row's wrapped cells: each cell's
/// physical lines, consumed one line index at a time across all columns.
struct RowLines {
    lines: Vec<Vec<String>>,
    current_line: usize,
}

impl RowLines {
    /// Split every cell of the row into its physical lines and start the
    /// cursor at the first line.
    fn new(row: Vec<String>) -> (r: RowLines)
        ensures
            r.lines@.len() == row@.len(),
            forall|j: int|
                0 <= j < row@.len() ==> string_views((#[trigger] r.lines@[j])@) == split_newlines(
                    row@[j]@,
                ),
            r.current_line == 0,
    {
        let mut lines: Vec<Vec<String>> = Vec::new();
        let mut j: usize = 0;
        while j < row.len()
            invariant
                j <= row@.len(),
                lines@.len() == j,
                forall|t: int|
                    0 <= t < j ==> string_views((#[trigger] lines@[t])@) == split_newlines(
                        row@[t]@,
                    ),
            decreases row@.len() - j,
        {
            let cell = crate::cells::Cell::from_string(&row[j]);
            lines.push(cell.data);
            j = j + 1;
        }
        RowLines { lines, current_line: 0 }
    }

    /// The values of the current line, one per column with empty strings
    /// past a column's end, advancing the cursor — or `None` once every
    /// column is exhausted.
    fn next_line(&mut self) -> (r: Option<Vec<String>>)
        ensures
            final(self).lines == old(self).lines,
            (r is Some) <==> (exists|j: int|
                0 <= j < old(self).lines@.len() && old(self).current_line < (
                #[trigger] old(self).lines@[j])@.len()),
            r matches Some(values) ==> {
                &&& final(self).current_line == old(self).current_line + 1
                &&& values@.len() == old(self).lines@.len()
                &&& forall|j: int|
                    0 <= j < values@.len() ==> (#[trigger] values@[j])@ == line_at(
                        string_views(old(self).lines@[j]@),
                        old(self).current_line as int,
                    )
            },
            (r is None) ==> final(self).current_line == old(self).current_line,
    {
        let mut all_none = true;
        let mut values: Vec<String> = Vec::new();
        let mut j: usize = 0;
        while j < self.lines.len()
            invariant
                j <= self.lines@.len(),
                self == old(self),
                values@.len() == j,
                all_none <==> (forall|t: int|
                    0 <= t < j ==> self.current_line >= (#[trigger] self.lines@[t])@.len()),
                !all_none ==> self.current_line < usize::MAX,
                forall|t: int|
                    0 <= t < j ==> (#[trigger] values@[t])@ == line_at(
                        string_views(self.lines@[t]@),
                        self.current_line as int,
                    ),
            decreases self.lines@.len() - j,
        {
            if self.current_line < self.lines[j].len() {
                all_none = false;
                let v = self.lines[j][self.current_line].clone();
                assert(v@ == self.lines@[j as int]@[self.current_line as int]@);
                values.push(v);
            } else {
                let v = String::new();
                values.push(v);
                proof {
                    assert(values@[j as int]@ =~= Seq::<char>::empty());
                }
            }
            j = j + 1;
        }
        if all_none {
            None
        } else {
            self.current_line = self.current_line + 1;
            Some(values)
        }
    }
}

} // verus!
