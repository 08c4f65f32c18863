use cli_table::table::Table;
use cli_table::table::Width;
use cli_table::table_writer::TableWriter;
use cli_table::TableError;

fn strings(values: &[&str]) -> Vec<String> {
    values.iter().map(|s| s.to_string()).collect()
}

#[test]
fn table_creation_works() {
    let values = ["föööö0000 oooooooo00 oooooooo00", "baaaaaaaaaaaaaaaaaaaaaaaaaaaaaaaaaaaaar", "baz"];
    let rows: Vec<Vec<String>> = values
        .iter()
        .map(|s| vec![s.to_string(), s.to_string()])
        .collect();

    Table::new(2)
        .header(strings(&["h1", "h2"]))
        .column_widths(vec![Width::Max(8), Width::Dynamic])
        .render(rows)
        .unwrap();
}

#[test]
fn print_with_header_works() {
    let rows: Vec<Vec<String>> = values()
        .into_iter()
        .map(|some_value| vec![some_value.number.to_string(), some_value.name])
        .collect();

    Table::new(2)
        .header(strings(&["The number", "My name"]))
        .render(rows)
        .unwrap();
}

#[test]
fn print_without_header_works() {
    let rows: Vec<Vec<String>> = values()
        .into_iter()
        .map(|some_value| vec![some_value.number.to_string(), some_value.name])
        .collect();

    Table::new(2).render(rows).unwrap();
}

#[test]
fn print_many_works() {
    let rows: Vec<Vec<String>> = (0..=100usize).map(|i| vec![i.to_string()]).collect();

    Table::new(1).header(strings(&["val"])).render(rows).unwrap();
}

struct SomeValue {
    number: usize,
    name: String,
}

fn values() -> Vec<SomeValue> {
    vec![
        SomeValue {
            number: 42,
            name: "Foo".to_string(),
        },
        SomeValue {
            number: 69,
            name: "Bar".to_string(),
        },
    ]
}

#[test]
fn render_with_header_output() {
    let lines = Table::new(2)
        .header(strings(&["id", "name"]))
        .render(vec![strings(&["1", "Foo"]), strings(&["23", "Ba"])])
        .unwrap();

    let expected = vec![
        "+----+------+",
        "|    |      |",
        "| id | name |",
        "|    |      |",
        "+----+------+",
        "|    |      |",
        "| 1  | Foo  |",
        "|    |      |",
        "+----+------+",
        "|    |      |",
        "| 23 | Ba   |",
        "|    |      |",
        "+----+------+",
    ];
    assert_eq!(lines, expected);
}

#[test]
fn render_wraps_capped_columns() {
    let writer = TableWriter::new(vec![Width::Dynamic, Width::Max(7)]);
    let lines = writer
        .write(vec![strings(&["id", "name"]), strings(&["1", "foo bar baz"])])
        .unwrap();

    let expected = vec![
        "+----+---------+",
        "|    |         |",
        "| id | name    |",
        "|    |         |",
        "+----+---------+",
        "|    |         |",
        "| 1  | foo bar |",
        "|    | baz     |",
        "|    |         |",
        "+----+---------+",
    ];
    assert_eq!(lines, expected);
}

#[test]
fn writer_rejects_wrong_arity() {
    let writer = TableWriter::new(vec![Width::Dynamic, Width::Dynamic]);
    assert_eq!(
        writer.write(vec![strings(&["a", "b", "c"])]),
        Err(TableError::ArityMismatch)
    );

    let writer = TableWriter::new(vec![Width::Dynamic, Width::Dynamic]);
    assert_eq!(
        writer.write(vec![strings(&["a"])]),
        Err(TableError::ArityMismatch)
    );
}

#[test]
fn render_rejects_wrong_header_arity() {
    let result = Table::new(2)
        .header(strings(&["only one"]))
        .render(vec![strings(&["a", "b"])]);
    assert_eq!(result, Err(TableError::ArityMismatch));
}

#[test]
fn render_rejects_wrong_row_arity() {
    let result = Table::new(2).render(vec![strings(&["a", "b"]), strings(&["c"])]);
    assert_eq!(result, Err(TableError::ArityMismatch));
}

#[test]
fn render_rejects_wrong_policy_arity() {
    let result = Table::new(2)
        .column_widths(vec![Width::Dynamic])
        .render(vec![strings(&["a", "b"])]);
    assert_eq!(result, Err(TableError::ArityMismatch));
}

#[test]
fn max_width_zero_empties_the_column() {
    let writer = TableWriter::new(vec![Width::Max(0), Width::Dynamic]);
    let lines = writer
        .write(vec![strings(&["hidden", "x"])])
        .unwrap();

    let expected = vec![
        "+--+---+",
        "|  |   |",
        "|  | x |",
        "|  |   |",
        "+--+---+",
    ];
    assert_eq!(lines, expected);
}
