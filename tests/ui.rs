use clyde::ui::{Table, Ui};

#[test]
fn indentation_grows_by_two_spaces() {
    let ui = Ui::default();
    assert_eq!(ui.get_indent(), "");
    let nested = ui.nest().nest();
    assert_eq!(nested.get_indent(), "    ");
}

#[test]
fn table_rows_are_padded_and_separated() {
    let table = Table::new(&vec![5, 3]);
    let row = table.format_row(&vec!["ab".to_string(), "xyzw".to_string(), "extra".to_string()]);
    assert_eq!(row, "ab   │xyzw");
    assert_eq!(table.separator(), "─────┼───");
}
