use ironcalc_lotus::datatable::{build_data_table, split_sheet_reference, DataTable};
use ironcalc_lotus::engine::{CellValue, ErrorKind};
use ironcalc_lotus::input::InputText;
use ironcalc_lotus::user_model::UserModel;
use ironcalc_lotus::workbook::Model;

fn new_empty_user_model() -> UserModel {
    UserModel::new_empty("model", "en", "UTC", "en")
}

fn new_empty_model() -> Model {
    Model::new_empty("model", "en", "UTC", "en")
}

fn set(model: &mut Model, sheet: u32, row: i32, column: i32, value: &str) {
    model
        .set_user_input(sheet, row, column, InputText::from_str(value))
        .unwrap();
}

fn number_at(model: &Model, reference: &str) -> f64 {
    match model.get_cell_value_by_ref(reference).unwrap() {
        CellValue::Number(d) => d.m as f64 / 10f64.powi(d.s as i32),
        other => panic!("{reference} is not a number: {other:?}"),
    }
}

fn model_with_column_table_inputs() -> UserModel {
    let mut model = new_empty_user_model();
    model.set_user_input(0, 1, 1, "0").unwrap();
    model.set_user_input(0, 2, 2, "=A1*10").unwrap();
    model.set_user_input(0, 3, 1, "1").unwrap();
    model.set_user_input(0, 4, 1, "2").unwrap();
    model.set_user_input(0, 5, 1, "3").unwrap();
    model
}

#[test]
fn create_and_compute_column_data_table() {
    let mut model = model_with_column_table_inputs();
    model.set_data_table(0, "B3:B5", None, Some("A1")).unwrap();

    assert_eq!(model.get_formatted_cell_value(0, 3, 2).unwrap(), "10");
    assert_eq!(model.get_formatted_cell_value(0, 4, 2).unwrap(), "20");
    assert_eq!(model.get_formatted_cell_value(0, 5, 2).unwrap(), "30");

    assert!(model.get_data_table(0, 4, 2).unwrap().is_some());
    assert!(model.get_data_table(0, 1, 1).unwrap().is_none());
}

#[test]
fn undo_redo_create_data_table() {
    let mut model = model_with_column_table_inputs();
    model.set_data_table(0, "B3:B5", None, Some("A1")).unwrap();
    assert_eq!(model.get_formatted_cell_value(0, 3, 2).unwrap(), "10");

    model.undo().unwrap();
    assert!(model.get_data_table(0, 3, 2).unwrap().is_none());
    assert_eq!(model.get_formatted_cell_value(0, 3, 2).unwrap(), "");

    model.redo().unwrap();
    assert!(model.get_data_table(0, 3, 2).unwrap().is_some());
    assert_eq!(model.get_formatted_cell_value(0, 3, 2).unwrap(), "10");
}

#[test]
fn delete_data_table_and_undo() {
    let mut model = model_with_column_table_inputs();
    model.set_data_table(0, "B3:B5", None, Some("A1")).unwrap();

    model.delete_data_table(0, 4, 2).unwrap();
    assert!(model.get_data_table(0, 4, 2).unwrap().is_none());
    assert_eq!(model.get_formatted_cell_value(0, 4, 2).unwrap(), "");

    model.undo().unwrap();
    assert!(model.get_data_table(0, 4, 2).unwrap().is_some());
    assert_eq!(model.get_formatted_cell_value(0, 4, 2).unwrap(), "20");
}

#[test]
fn two_variable_inference_and_missing_inputs() {
    let mut model = new_empty_user_model();
    model.set_user_input(0, 1, 1, "0").unwrap();
    model.set_user_input(0, 1, 2, "0").unwrap();
    model
        .set_data_table(0, "C3:D4", Some("A1"), Some("B1"))
        .unwrap();
    let data_table = model.get_data_table(0, 3, 3).unwrap().unwrap();
    assert!(data_table.two_dimensional);
    assert_eq!(data_table.r1, "A1");
    assert_eq!(data_table.r2.as_deref(), Some("B1"));

    assert!(model.set_data_table(0, "F3:F5", None, None).is_err());
}

#[test]
fn iterative_calculation_setting_undo_redo() {
    let mut model = new_empty_user_model();
    assert!(!model.get_iterative_calculation().iterate);

    model
        .set_iterative_calculation(true, Some(50), Some(0.01f64.to_bits()))
        .unwrap();
    assert!(model.get_iterative_calculation().iterate);
    assert_eq!(model.get_iterative_calculation().iterate_count, 50);

    model.undo().unwrap();
    assert!(!model.get_iterative_calculation().iterate);

    model.redo().unwrap();
    assert!(model.get_iterative_calculation().iterate);
    assert_eq!(model.get_iterative_calculation().iterate_count, 50);
}

#[test]
fn evaluates_one_variable_column_data_table() {
    let mut model = new_empty_model();
    set(&mut model, 0, 1, 2, "0");
    set(&mut model, 0, 2, 3, "=B1*2");
    set(&mut model, 0, 2, 4, "=B1*3");
    for (row, value) in [(3, "1"), (4, "2"), (5, "3")] {
        set(&mut model, 0, row, 2, value);
        set(&mut model, 0, row, 3, "999");
        set(&mut model, 0, row, 4, "999");
    }
    set(&mut model, 0, 3, 5, "=C3+D3");
    model.worksheets[0].data_tables.push(DataTable {
        range: "C3:D5".to_string(),
        two_dimensional: false,
        row_oriented: false,
        r1: "B1".to_string(),
        r2: None,
        calculate_always: true,
    });

    model.evaluate();

    assert_eq!(number_at(&model, "Sheet1!C3"), 2.0);
    assert_eq!(number_at(&model, "Sheet1!D3"), 3.0);
    assert_eq!(number_at(&model, "Sheet1!C5"), 6.0);
    assert_eq!(number_at(&model, "Sheet1!D5"), 9.0);
    assert_eq!(number_at(&model, "Sheet1!E3"), 5.0);
    assert_eq!(number_at(&model, "Sheet1!B1"), 0.0);
}

#[test]
fn evaluates_one_variable_row_data_table() {
    let mut model = new_empty_model();
    set(&mut model, 0, 1, 2, "0");
    set(&mut model, 0, 3, 2, "=B1*2");
    set(&mut model, 0, 4, 2, "=B1*3");
    for (column, value) in [(3, "1"), (4, "2"), (5, "3")] {
        set(&mut model, 0, 2, column, value);
        set(&mut model, 0, 3, column, "999");
        set(&mut model, 0, 4, column, "999");
    }
    model.worksheets[0].data_tables.push(DataTable {
        range: "C3:E4".to_string(),
        two_dimensional: false,
        row_oriented: true,
        r1: "B1".to_string(),
        r2: None,
        calculate_always: true,
    });

    model.evaluate();

    assert_eq!(number_at(&model, "Sheet1!C3"), 2.0);
    assert_eq!(number_at(&model, "Sheet1!E3"), 6.0);
    assert_eq!(number_at(&model, "Sheet1!C4"), 3.0);
    assert_eq!(number_at(&model, "Sheet1!E4"), 9.0);
    assert_eq!(number_at(&model, "Sheet1!B1"), 0.0);
}

#[test]
fn evaluates_two_variable_data_table() {
    let mut model = new_empty_model();
    set(&mut model, 0, 1, 1, "0");
    set(&mut model, 0, 1, 2, "0");
    set(&mut model, 0, 2, 3, "=A1+B1");
    set(&mut model, 0, 2, 4, "10");
    set(&mut model, 0, 2, 5, "20");
    set(&mut model, 0, 3, 3, "1");
    set(&mut model, 0, 4, 3, "2");
    for row in 3..=4 {
        for column in 4..=5 {
            set(&mut model, 0, row, column, "999");
        }
    }
    model.worksheets[0].data_tables.push(DataTable {
        range: "D3:E4".to_string(),
        two_dimensional: true,
        row_oriented: true,
        r1: "A1".to_string(),
        r2: Some("B1".to_string()),
        calculate_always: true,
    });

    model.evaluate();

    assert_eq!(number_at(&model, "Sheet1!D3"), 11.0);
    assert_eq!(number_at(&model, "Sheet1!E3"), 21.0);
    assert_eq!(number_at(&model, "Sheet1!D4"), 12.0);
    assert_eq!(number_at(&model, "Sheet1!E4"), 22.0);
    assert_eq!(number_at(&model, "Sheet1!A1"), 0.0);
    assert_eq!(number_at(&model, "Sheet1!B1"), 0.0);
}

#[test]
fn build_data_table_kinds() {
    let row = build_data_table("C3:D4", Some("A1"), None).unwrap();
    assert!(!row.two_dimensional && row.row_oriented && row.r2.is_none());
    let column = build_data_table("C3:D4", None, Some("B1")).unwrap();
    assert!(!column.two_dimensional && !column.row_oriented);
    assert_eq!(column.r1, "B1");
    let err = build_data_table("C3:D4", None, None).unwrap_err();
    assert_eq!(err, "A data table needs a row input cell, a column input cell, or both");
}

#[test]
fn table_needs_room_and_valid_inputs() {
    let mut model = new_empty_user_model();
    let err = model.set_data_table(0, "A1:B2", None, Some("C1")).unwrap_err();
    assert_eq!(err, "A data table needs a row above and a column to its left");
    let err = model.set_data_table(0, "B2:C3", None, Some("Nope!A1")).unwrap_err();
    assert_eq!(err, "Invalid data table input cell");
    let err = model.set_data_table(0, "B2-C3", None, Some("A1")).unwrap_err();
    assert_eq!(err, "Invalid data table range");
    let err = model.set_data_table(3, "B2:C3", None, Some("A1")).unwrap_err();
    assert_eq!(err, "Invalid sheet index");
    let err = model.delete_data_table(0, 2, 2).unwrap_err();
    assert_eq!(err, "There is no data table at this cell");
}

#[test]
fn setting_a_table_at_the_same_anchor_replaces_it() {
    let mut model = new_empty_user_model();
    model.set_data_table(0, "B2:B4", None, Some("A1")).unwrap();
    model.set_data_table(0, "B2:C5", Some("A1"), None).unwrap();
    let t = model.get_data_table(0, 5, 3).unwrap().unwrap();
    assert_eq!(t.range, "B2:C5");
    assert!(t.row_oriented);
    model.undo().unwrap();
    let t = model.get_data_table(0, 3, 2).unwrap().unwrap();
    assert_eq!(t.range, "B2:B4");
    assert!(model.get_data_table(0, 5, 3).unwrap().is_none());
}

#[test]
fn quoted_sheet_names_in_input_cells() {
    let mut model = new_empty_user_model();
    model.set_user_input(0, 1, 1, "5").unwrap();
    model.set_user_input(0, 2, 2, "=A1+1").unwrap();
    model.set_data_table(0, "B3:B3", None, Some("'Sheet1'!$A$1")).unwrap();
    model.set_user_input(0, 3, 1, "41").unwrap();
    assert_eq!(model.get_formatted_cell_value(0, 3, 2).unwrap(), "42");
}

#[test]
fn undo_of_a_cell_input_restores_the_old_input() {
    let mut model = new_empty_user_model();
    model.set_user_input(0, 1, 1, "7").unwrap();
    model.set_user_input(0, 1, 1, "8").unwrap();
    assert_eq!(model.get_formatted_cell_value(0, 1, 1).unwrap(), "8");
    model.undo().unwrap();
    assert_eq!(model.get_formatted_cell_value(0, 1, 1).unwrap(), "7");
    model.undo().unwrap();
    assert_eq!(model.get_formatted_cell_value(0, 1, 1).unwrap(), "");
    model.redo().unwrap();
    assert_eq!(model.get_formatted_cell_value(0, 1, 1).unwrap(), "7");
    assert!(model.set_user_input(0, 0, 1, "1").is_err());
}

#[test]
fn table_results_read_back_as_values() {
    let mut model = new_empty_user_model();
    model.set_user_input(0, 1, 1, "1").unwrap();
    model.set_user_input(0, 2, 2, "=1/A1").unwrap();
    model.set_user_input(0, 3, 1, "0").unwrap();
    model.set_user_input(0, 4, 1, "4").unwrap();
    model.set_user_input(0, 5, 1, "-8").unwrap();
    model.set_data_table(0, "B3:B5", None, Some("A1")).unwrap();

    let m = model.get_model();
    assert!(matches!(
        m.get_cell_value_by_index(0, 3, 2).unwrap(),
        CellValue::Error(ErrorKind::Div0)
    ));
    match m.get_cell_value_by_index(0, 4, 2).unwrap() {
        CellValue::Number(d) => assert_eq!((d.m, d.s), (25, 2)),
        other => panic!("B4 is not a number: {other:?}"),
    }
    match m.get_cell_value_by_index(0, 5, 2).unwrap() {
        CellValue::Number(d) => assert_eq!((d.m, d.s), (-125, 3)),
        other => panic!("B5 is not a number: {other:?}"),
    }
    assert_eq!(model.get_formatted_cell_value(0, 3, 2).unwrap(), "#DIV/0!");
    assert_eq!(model.get_formatted_cell_value(0, 5, 2).unwrap(), "-0.125");
}

#[test]
fn computing_tables_keeps_the_inputs_outside_them() {
    let mut model = model_with_column_table_inputs();
    model.set_data_table(0, "B3:B5", None, Some("A1")).unwrap();
    assert_eq!(model.get_formatted_cell_value(0, 1, 1).unwrap(), "0");
    assert_eq!(model.get_formatted_cell_value(0, 2, 2).unwrap(), "0");
    assert_eq!(model.get_formatted_cell_value(0, 3, 1).unwrap(), "1");
    assert_eq!(model.get_formatted_cell_value(0, 5, 1).unwrap(), "3");
}

#[test]
fn average_in_a_column_table() {
    let mut model = new_empty_user_model();
    model.set_user_input(0, 1, 1, "10").unwrap();
    model.set_user_input(0, 1, 2, "20").unwrap();
    model.set_user_input(0, 2, 4, "=AVERAGE(A1:B1)").unwrap();
    model.set_user_input(0, 3, 3, "0").unwrap();
    model.set_user_input(0, 4, 3, "40").unwrap();
    model.set_data_table(0, "D3:D4", None, Some("A1")).unwrap();
    assert_eq!(model.get_formatted_cell_value(0, 2, 4).unwrap(), "15");
    assert_eq!(model.get_formatted_cell_value(0, 3, 4).unwrap(), "10");
    assert_eq!(model.get_formatted_cell_value(0, 4, 4).unwrap(), "30");
}

#[test]
fn references_are_trimmed_of_unicode_white_space() {
    assert_eq!(
        split_sheet_reference("\u{3000}Data!B2\u{00A0}"),
        Some((Some("Data".to_string()), "B2".to_string()))
    );
    assert_eq!(split_sheet_reference(" \t "), None);
}
