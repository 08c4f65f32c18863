use cli_table::cells::Cell;
use cli_table::cells::Dimension;
use cli_table::cells::RowCells;
use cli_table::cells::TableCells;
use cli_table::row::Row;
use cli_table::TableError;

fn dimension(width: usize, height: usize) -> Dimension {
    Dimension { width, height }
}

fn cell(data: Vec<&str>, dimension: Dimension) -> Cell {
    Cell {
        data: data.into_iter().map(|s| s.to_string()).collect(),
        dimension,
    }
}

fn row_cells(cells: Vec<Cell>, max_dimension: Dimension) -> RowCells {
    RowCells {
        cells,
        max_dimension,
    }
}

fn table_cells(row_cells: Vec<RowCells>, cell_dimension: Dimension, columns: usize) -> TableCells {
    TableCells {
        row_cells,
        cell_dimension,
        columns,
    }
}

#[test]
fn from_rows_works() {
    let rows = vec![
        Row::from(vec!["42".to_string(), "Foo".to_string()]),
        Row::from(vec!["69".to_string(), "Bar".to_string()]),
    ];

    let expected_table_cells = table_cells(
        vec![
            row_cells(
                vec![
                    cell(vec!["42"], dimension(2, 1)),
                    cell(vec!["Foo"], dimension(3, 1)),
                ],
                dimension(3, 1),
            ),
            row_cells(
                vec![
                    cell(vec!["69"], dimension(2, 1)),
                    cell(vec!["Bar"], dimension(3, 1)),
                ],
                dimension(3, 1),
            ),
        ],
        dimension(3, 1),
        2,
    );

    assert_eq!(TableCells::from_rows(rows, 2).unwrap(), expected_table_cells)
}

#[test]
fn from_row_works() {
    let row = Row::from(vec!["foo".to_string(), "bar\nbaz".to_string()]);
    let row_cells = row_cells(
        vec![
            cell(vec!["foo"], dimension(3, 1)),
            cell(vec!["bar", "baz"], dimension(3, 2)),
        ],
        dimension(3, 2),
    );

    assert_eq!(RowCells::from_row(&row), row_cells)
}

#[test]
fn get_line_values_works() {
    let row_cells = row_cells(
        vec![
            cell(vec!["foo"], dimension(3, 1)),
            cell(vec!["bar", "baz"], dimension(3, 2)),
        ],
        dimension(3, 2),
    );

    assert_eq!(
        row_cells.get_line_values(0),
        vec!["foo".to_string(), "bar".to_string()]
    );
    assert_eq!(
        row_cells.get_line_values(1),
        vec!["".to_string(), "baz".to_string()]
    );
    assert_eq!(
        row_cells.get_line_values(2),
        vec!["".to_string(), "".to_string()]
    );
    assert_eq!(
        row_cells.get_line_values(3),
        vec!["".to_string(), "".to_string()]
    );
}

#[test]
fn from_string_works() {
    let string = "foo\nbarbaz".to_string();

    assert_eq!(
        Cell::from_string(&string),
        cell(
            vec!["foo", "barbaz"],
            Dimension {
                width: 6,
                height: 2
            }
        )
    )
}

#[test]
fn get_line_works() {
    let cell = cell(
        vec!["foo", "bar"],
        Dimension {
            width: 3,
            height: 2,
        },
    );

    assert_eq!(cell.get_line(0), "foo".to_string());
    assert_eq!(cell.get_line(1), "bar".to_string());
    assert_eq!(cell.get_line(2), "".to_string());
    assert_eq!(cell.get_line(3), "".to_string());
}

#[test]
fn cells_from_string_works() {
    assert_eq!(Dimension::from_string(&String::new()), dimension(0, 1));
    assert_eq!(Dimension::from_string(&"foo".to_string()), dimension(3, 1));
    assert_eq!(
        Dimension::from_string(&"foo\nbar".to_string()),
        dimension(3, 2)
    );
    assert_eq!(
        Dimension::from_string(&"foo\nbarbaz".to_string()),
        dimension(6, 2)
    )
}

#[test]
fn max_merge_works() {
    assert_eq!(
        Dimension::max_merge(dimension(5, 5), dimension(5, 5)),
        dimension(5, 5)
    );

    assert_eq!(
        Dimension::max_merge(dimension(5, 1), dimension(1, 5)),
        dimension(5, 5)
    )
}

#[test]
fn dimension_counts_code_points() {
    assert_eq!(Dimension::from_string(&"föö".to_string()), dimension(3, 1));
    assert_eq!(
        Dimension::from_string(&"äö\nüß".to_string()),
        dimension(2, 2)
    );
}

#[test]
fn dimension_counts_trailing_newline_segment() {
    assert_eq!(Dimension::from_string(&"foo\n".to_string()), dimension(3, 2));
}

#[test]
fn cell_line_retrieval_never_errors() {
    let cell = Cell::from_string(&"foo\nbaz".to_string());

    assert_eq!(cell.get_line(0), "foo".to_string());
    assert_eq!(cell.get_line(1), "baz".to_string());
    assert_eq!(cell.get_line(2), "".to_string());
    assert_eq!(cell.get_line(99), "".to_string());
}

#[test]
fn from_rows_rejects_extra_value() {
    let rows = vec![
        Row::from(vec!["a".to_string(), "b".to_string()]),
        Row::from(vec!["c".to_string(), "d".to_string(), "e".to_string()]),
    ];

    assert_eq!(
        TableCells::from_rows(rows, 2),
        Err(TableError::ArityMismatch)
    );
}

#[test]
fn from_rows_rejects_missing_value() {
    let rows = vec![Row::from(vec!["a".to_string()])];

    assert_eq!(
        TableCells::from_rows(rows, 2),
        Err(TableError::ArityMismatch)
    );
}
