use cli_table::header::Header;
use cli_table::row::ToRow;

#[test]
fn it_works() {
    assert_eq!(2 + 2, 4);
}

#[test]
fn header_turns_into_a_row() {
    let header = Header::new(vec!["The number", "My name"]);
    let row = header.to_table_row();
    assert_eq!(
        row.values,
        vec!["The number".to_string(), "My name".to_string()]
    );
}
