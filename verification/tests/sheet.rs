use dnd_spreadsheet::language::s_exprs::pretty_print_result;
use dnd_spreadsheet::reactive::sheet::{CellId, Sheet};

fn show(sheet: &Sheet, id: &CellId) -> String {
    pretty_print_result(sheet.get_cell_value(id).unwrap())
}

fn names(ids: &Vec<CellId>) -> Vec<String> {
    ids.iter().map(|id| id.0.clone()).collect()
}

#[test]
fn values_follow_their_reads() {
    let mut sheet = Sheet::new();
    let a1 = sheet.add_cell("A1".to_string(), "5").unwrap();
    let a2 = sheet.add_cell("A2".to_string(), "-A1 - -3").unwrap();
    let a3 = sheet.add_cell("A3".to_string(), "{x: A1, y: A2}").unwrap();
    assert_eq!(show(&sheet, &a1), "5");
    assert_eq!(show(&sheet, &a2), "-2");
    assert_eq!(show(&sheet, &a3), "{x: 5, y: -2}");

    let visited = sheet.update_cell(&a1, "-2");
    assert_eq!(show(&sheet, &a1), "-2");
    assert_eq!(show(&sheet, &a2), "5");
    assert_eq!(show(&sheet, &a3), "{x: -2, y: 5}");
    assert_eq!(names(&visited), vec!["A1", "A2", "A3"]);
}

#[test]
fn accessors_of_a_cell() {
    let mut sheet = Sheet::new();
    let a1 = sheet.add_cell("A1".to_string(), "1 + 2").unwrap();
    assert_eq!(sheet.get_cell_text(&a1), Some("1 + 2"));
    assert_eq!(sheet.get_cell_name(&a1), Some("A1"));
    assert_eq!(sheet.get_ast_s_expr(&a1), "(+ 1 2)");
    let missing = CellId("Z9".to_string());
    assert!(sheet.get_cell_value(&missing).is_none());
    assert_eq!(sheet.get_cell_text(&missing), None);
    assert_eq!(sheet.get_cell_name(&missing), None);
    assert_eq!(sheet.get_ast_s_expr(&missing), "No ast");
}

#[test]
fn a_name_is_taken_once() {
    let mut sheet = Sheet::new();
    assert!(sheet.add_cell("A".to_string(), "1").is_some());
    assert!(sheet.add_cell("A".to_string(), "2").is_none());
    assert_eq!(show(&sheet, &CellId("A".to_string())), "1");
    assert!(sheet.add_cell("a".to_string(), "3").is_some());
}

#[test]
fn an_invalid_name_is_rejected() {
    let mut sheet = Sheet::new();
    assert!(sheet.add_cell("".to_string(), "1").is_none());
    assert!(sheet.add_cell("1A".to_string(), "1").is_none());
    assert!(sheet.add_cell("A B".to_string(), "1").is_none());
    assert!(sheet.add_cell("$A".to_string(), "1").is_none());
}

#[test]
fn updating_a_missing_cell_changes_nothing() {
    let mut sheet = Sheet::new();
    let a = sheet.add_cell("A".to_string(), "1").unwrap();
    let visited = sheet.update_cell(&CellId("B".to_string()), "2");
    assert!(visited.is_empty());
    assert_eq!(show(&sheet, &a), "1");
}

#[test]
fn a_text_that_does_not_parse_is_an_error_value() {
    let mut sheet = Sheet::new();
    let a = sheet.add_cell("A".to_string(), "1 +").unwrap();
    assert_eq!(show(&sheet, &a), "Error: Parse Error: Expected name or lit int");
    assert_eq!(sheet.get_ast_s_expr(&a), "No ast");
    let b = sheet.add_cell("B".to_string(), "A").unwrap();
    assert_eq!(show(&sheet, &b), "Error: Error in read cell A");
    sheet.update_cell(&a, "4");
    assert_eq!(show(&sheet, &a), "4");
    assert_eq!(show(&sheet, &b), "4");
    sheet.update_cell(&a, "(");
    assert_eq!(show(&sheet, &a), "Error: Parse Error: Expected name or lit int");
    assert_eq!(show(&sheet, &b), "Error: Error in read cell A");
}

#[test]
fn a_cell_met_again_on_a_read_cycle_gets_the_sentinel() {
    let mut sheet = Sheet::new();
    let a = sheet.add_cell("A".to_string(), "1").unwrap();
    let b = sheet.add_cell("B".to_string(), "A + 1").unwrap();
    assert_eq!(show(&sheet, &b), "2");
    let visited = sheet.update_cell(&a, "B");
    assert_eq!(show(&sheet, &a), "Error: Circular dependency");
    // The sweep ends at the cell that it meets again: the other cell of the
    // cycle keeps the value it got before.
    assert_eq!(show(&sheet, &b), "3");
    assert_eq!(names(&visited), vec!["A", "B"]);

    sheet.update_cell(&a, "10");
    assert_eq!(show(&sheet, &a), "10");
    assert_eq!(show(&sheet, &b), "11");
}

#[test]
fn a_cell_that_reads_itself() {
    let mut sheet = Sheet::new();
    let a = sheet.add_cell("A".to_string(), "1").unwrap();
    sheet.update_cell(&a, "A + 1");
    assert_eq!(show(&sheet, &a), "Error: Circular dependency");
    sheet.update_cell(&a, "7");
    assert_eq!(show(&sheet, &a), "7");
}

#[test]
fn pushes_arrive_in_the_inbox() {
    let mut sheet = Sheet::new();
    let w = sheet.add_cell("W".to_string(), "push(\"T\", 7)").unwrap();
    let t = sheet.add_cell("T".to_string(), "read()").unwrap();
    assert_eq!(show(&sheet, &w), "()");
    // Adding a cell delivers no pushes: the first update of the writer does.
    assert_eq!(show(&sheet, &t), "[]");
    sheet.update_cell(&w, "push(\"T\", 7)");
    assert_eq!(show(&sheet, &t), "[7]");
    sheet.update_cell(&w, "push(\"T\", 8)");
    assert_eq!(show(&sheet, &t), "[8]");
    sheet.update_cell(&w, "0");
    assert_eq!(show(&sheet, &t), "[]");
}

#[test]
fn the_inbox_is_in_the_order_of_the_writers_names() {
    let mut sheet = Sheet::new();
    let t = sheet.add_cell("T".to_string(), "read()").unwrap();
    let w2 = sheet.add_cell("W2".to_string(), "0").unwrap();
    let w1 = sheet.add_cell("W1".to_string(), "0").unwrap();
    let w10 = sheet.add_cell("W10".to_string(), "0").unwrap();
    sheet.update_cell(&w2, "0");
    sheet.update_cell(&w1, "push(\"T\", 1)");
    sheet.update_cell(&w10, "push(\"T\", 2)");
    assert_eq!(show(&sheet, &t), "[1, 2]");
    sheet.update_cell(&w2, "[push(\"T\", 3), push(\"T\", 4)]");
    assert_eq!(show(&sheet, &w2), "[(), ()]");
    assert_eq!(show(&sheet, &t), "[1, 2, 3, 4]");
    let visited = sheet.update_cell(&w1, "push(\"T\", 9)");
    assert_eq!(show(&sheet, &t), "[9, 2, 3, 4]");
    assert_eq!(names(&visited), vec!["W1", "T"]);
}

#[test]
fn a_missing_field_is_an_error_until_it_is_there() {
    let mut sheet = Sheet::new();
    let a = sheet.add_cell("A".to_string(), "{k: 1}").unwrap();
    let b = sheet.add_cell("B".to_string(), "A.k + A.m").unwrap();
    assert_eq!(show(&sheet, &b), "Error: Field does not exist");
    sheet.update_cell(&a, "{k: 1, m: 2}");
    assert_eq!(show(&sheet, &b), "3");
}

#[test]
fn the_order_of_declaration_does_not_matter() {
    let mut first = Sheet::new();
    let a = first.add_cell("A".to_string(), "0").unwrap();
    let b = first.add_cell("B".to_string(), "0").unwrap();
    first.update_cell(&a, "3");
    first.update_cell(&b, "A * 2");

    let mut second = Sheet::new();
    let b2 = second.add_cell("B".to_string(), "0").unwrap();
    let a2 = second.add_cell("A".to_string(), "0").unwrap();
    second.update_cell(&b2, "A * 2");
    second.update_cell(&a2, "3");

    assert_eq!(show(&first, &a), show(&second, &a2));
    assert_eq!(show(&first, &b), show(&second, &b2));
    assert_eq!(show(&first, &b), "6");
}

#[test]
fn a_push_cycle_ends_at_the_step_limit() {
    let mut sheet = Sheet::with_limits(100, 50);
    let a = sheet.add_cell("A".to_string(), "0").unwrap();
    let b = sheet.add_cell("B".to_string(), "push(\"A\", 1)").unwrap();
    sheet.update_cell(&b, "push(\"A\", 1)");
    let visited = sheet.update_cell(&a, "push(\"B\", 1)");
    assert_eq!(names(&visited), vec!["A", "B"]);
    assert_eq!(show(&sheet, &a), "()");
}

#[test]
fn push_dependents_come_before_read_dependents() {
    let mut sheet = Sheet::new();
    let w = sheet.add_cell("W".to_string(), "0").unwrap();
    let r = sheet.add_cell("R".to_string(), "W").unwrap();
    let t = sheet.add_cell("T".to_string(), "read()").unwrap();
    let visited = sheet.update_cell(&w, "push(\"T\", 1)");
    assert_eq!(names(&visited), vec!["W", "T", "R"]);
    assert_eq!(show(&sheet, &r), "()");
    assert_eq!(show(&sheet, &t), "[1]");
}

#[test]
fn a_diamond_of_reads_settles() {
    let mut sheet = Sheet::new();
    let a = sheet.add_cell("A".to_string(), "1").unwrap();
    let b = sheet.add_cell("B".to_string(), "A + 1").unwrap();
    let c = sheet.add_cell("C".to_string(), "A * 10").unwrap();
    let d = sheet.add_cell("D".to_string(), "[B, C]").unwrap();
    assert_eq!(show(&sheet, &d), "[2, 10]");
    let visited = sheet.update_cell(&a, "5");
    assert_eq!(names(&visited), vec!["A", "B", "C", "D"]);
    assert_eq!(show(&sheet, &b), "6");
    assert_eq!(show(&sheet, &c), "50");
    assert_eq!(show(&sheet, &d), "[6, 50]");
}

#[test]
fn a_dropped_read_is_no_longer_followed() {
    let mut sheet = Sheet::new();
    let a = sheet.add_cell("A".to_string(), "1").unwrap();
    let b = sheet.add_cell("B".to_string(), "A").unwrap();
    sheet.update_cell(&b, "2");
    let visited = sheet.update_cell(&a, "3");
    assert_eq!(names(&visited), vec!["A"]);
    assert_eq!(show(&sheet, &b), "2");
}

#[test]
fn a_cell_added_later_is_not_seen_until_the_reader_is_updated() {
    let mut sheet = Sheet::new();
    let b = sheet.add_cell("B".to_string(), "A").unwrap();
    assert_eq!(show(&sheet, &b), "Error: Unknown name A");
    sheet.add_cell("A".to_string(), "1").unwrap();
    assert_eq!(show(&sheet, &b), "Error: Unknown name A");
    sheet.update_cell(&b, "A");
    assert_eq!(show(&sheet, &b), "1");
}

#[test]
fn a_dollar_reference_is_followed_once_the_cell_is_there() {
    let mut sheet = Sheet::new();
    let b = sheet.add_cell("B".to_string(), "$A").unwrap();
    assert_eq!(show(&sheet, &b), "Error: Unknown cell name A");
    let a = sheet.add_cell("A".to_string(), "1").unwrap();
    // The read of the missing cell was recorded, so an update of the cell
    // reaches the reader.
    let visited = sheet.update_cell(&a, "2");
    assert_eq!(names(&visited), vec!["A", "B"]);
    assert_eq!(show(&sheet, &b), "2");
}

#[test]
fn one_step_recomputes_only_the_updated_cell() {
    let mut sheet = Sheet::with_limits(100, 1);
    let a = sheet.add_cell("A".to_string(), "1").unwrap();
    let b = sheet.add_cell("B".to_string(), "A").unwrap();
    let visited = sheet.update_cell(&a, "2");
    assert_eq!(names(&visited), vec!["A"]);
    assert_eq!(show(&sheet, &a), "2");
    assert_eq!(show(&sheet, &b), "1");
}

#[test]
fn a_shallow_sheet_refuses_deep_expressions() {
    let mut sheet = Sheet::with_limits(2, 100);
    let a = sheet.add_cell("A".to_string(), "1 + 2").unwrap();
    assert_eq!(show(&sheet, &a), "3");
    let b = sheet.add_cell("B".to_string(), "1 + 2 + 3").unwrap();
    assert_eq!(show(&sheet, &b), "Error: Evaluation nested too deeply");
}
