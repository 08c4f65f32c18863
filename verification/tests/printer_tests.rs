use cli_table::cells::TableCells;
use cli_table::printer::Printer;
use cli_table::row::Row;
use cli_table::string_utils::num_chars;

fn two_by_two() -> TableCells {
    let rows = vec![
        Row::from(vec!["42".to_string(), "Foo".to_string()]),
        Row::from(vec!["69".to_string(), "Bar".to_string()]),
    ];
    TableCells::from_rows(rows, 2).unwrap()
}

#[test]
fn print_to_renders_shared_width_table() {
    let printer = Printer::new(two_by_two());
    let lines = printer.print_to();

    let expected = vec![
        "+-----+-----+",
        "|     |     |",
        "| 42  | Foo |",
        "|     |     |",
        "+-----+-----+",
        "|     |     |",
        "| 69  | Bar |",
        "|     |     |",
        "+-----+-----+",
    ];
    assert_eq!(lines, expected);
}

#[test]
fn print_to_block_shape() {
    let printer = Printer::new(two_by_two());
    let lines = printer.print_to();

    // Shared dynamic width: the widest cell is "Foo" with 3 characters.
    let max_col_width = 3;
    let expected_width = (max_col_width + 2) * 2 + 3;

    assert!(lines.first().unwrap().starts_with('+'));
    assert!(lines.first().unwrap().ends_with('+'));
    assert!(lines.last().unwrap().starts_with('+'));
    assert!(lines.last().unwrap().ends_with('+'));
    for line in &lines {
        assert_eq!(num_chars(line), expected_width);
    }
    assert!(lines.iter().any(|l| l.contains(" 42  ")));
    assert!(lines.iter().any(|l| l.contains(" Foo ")));
}

#[test]
fn print_to_pads_rows_of_different_heights() {
    let rows = vec![
        Row::from(vec!["a".to_string(), "x\ny".to_string()]),
        Row::from(vec!["b".to_string(), "z".to_string()]),
    ];
    let cells = TableCells::from_rows(rows, 2).unwrap();
    assert_eq!(cells.cell_dimension.height, 2);

    let printer = Printer::new(cells);
    let lines = printer.print_to();

    let expected = vec![
        "+---+---+",
        "|   |   |",
        "| a | x |",
        "|   | y |",
        "|   |   |",
        "+---+---+",
        "|   |   |",
        "| b | z |",
        "|   |   |",
        "|   |   |",
        "+---+---+",
    ];
    assert_eq!(lines, expected);
}

#[test]
fn print_to_empty_table_prints_nothing() {
    let cells = TableCells::from_rows(vec![], 2).unwrap();
    let printer = Printer::new(cells);
    assert_eq!(printer.print_to(), Vec::<String>::new());
}
