use simpledb_rs::display::{
    align_left, align_right, blank, column_width, field_description, format_integer_cell,
    format_text_cell, int_to_text, join_entries, line_of_cell, row_lines, row_segments, rule,
    total_width, type_description, update_message, wrap_text,
};

fn strings(v: &[&str]) -> Vec<String> {
    v.iter().map(|s| s.to_string()).collect()
}

#[test]
fn display_alignment() {
    assert_eq!(align_right("A", 12), format!("{:>12}", "A"));
    assert_eq!(align_left("ab", 4), "ab  ");
    assert_eq!(align_right("toolong", 3), "toolong");
    assert_eq!(blank(3), "   ");
    assert_eq!(rule(12), "-".repeat(12));
}

#[test]
fn display_wrapping() {
    assert_eq!(wrap_text("abcdefgh", 3), strings(&["abc", "def", "gh "]));
    assert_eq!(wrap_text("abcdef", 3), strings(&["abc", "def"]));
    assert_eq!(wrap_text("", 4), strings(&["    "]));
    assert_eq!(format_text_cell(None, 2), strings(&["NU", "LL"]));
    assert_eq!(format_text_cell(Some("xy"), 4), strings(&["xy  "]));
}

#[test]
fn display_integers() {
    assert_eq!(format_integer_cell(Some(1), 12), vec![format!("{:>12}", 1)]);
    assert_eq!(format_integer_cell(None, 6), strings(&["  NULL"]));
    assert_eq!(int_to_text(-2147483648), "-2147483648");
    assert_eq!(int_to_text(0), "0");
    assert_eq!(int_to_text(405), "405");
}

#[test]
fn display_rows() {
    let cells = vec![strings(&["  1"]), strings(&["ab", "c "])];
    assert_eq!(row_lines(&cells), 2);
    assert_eq!(
        row_segments(&cells, &vec![3, 2]),
        vec![strings(&["  1", "ab"]), strings(&["   ", "c "])]
    );
    assert_eq!(line_of_cell(&cells[0], 1, 3), "   ");
    assert_eq!(row_lines(&vec![]), 1);
}

#[test]
fn display_table_width() {
    assert_eq!(total_width(&vec![12]), 12);
    assert_eq!(total_width(&vec![12, 12]), 27);
    assert_eq!(total_width(&vec![]), 0);
}

#[test]
fn display_messages_and_schemas() {
    assert_eq!(update_message(1), "1 records processed");
    assert_eq!(update_message(0), "0 records processed");
    assert_eq!(type_description(0, 0), "I32");
    assert_eq!(type_description(1, 10), "VARCHAR(10)");
    assert_eq!(type_description(7, 3), "7");
    assert_eq!(field_description("A", 0, 4), "A I32");
    assert_eq!(field_description("B", 1, 10), "B VARCHAR(10)");
    assert_eq!(
        join_entries(&strings(&["A I32", "B VARCHAR(10)"])),
        "A I32, B VARCHAR(10)"
    );
    assert_eq!(join_entries(&strings(&[])), "");
    assert_eq!(join_entries(&strings(&["C I32"])), "C I32");
}

#[test]
fn display_show_tables_widths() {
    let names = strings(&["tblcat", "fldcat", "idxcat", "T1", "T2"]);
    let schemas = strings(&[
        "slotsize I32, tblname VARCHAR(50)",
        "type I32, length I32, offset I32, tblname VARCHAR(50), fldname VARCHAR(50)",
        "index_name VARCHAR(255), table_name VARCHAR(255), field_name VARCHAR(255)",
        "A I32, B VARCHAR(10)",
        "C I32",
    ]);
    assert_eq!(column_width("name", &names), 6);
    assert_eq!(column_width("schema", &schemas), 74);
    assert_eq!(column_width("schema", &strings(&["é"])), 6);
    assert_eq!(column_width("ab", &strings(&["ééé"])), 6);
}
