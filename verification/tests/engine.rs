use ironcalc_lotus::datatable::build_data_table;
use ironcalc_lotus::engine::{classify_input, parse_number, CellValue, Content};
use ironcalc_lotus::input::InputText;
use ironcalc_lotus::workbook::Model;

fn new_empty_model() -> Model {
    Model::new_empty("model", "en", "UTC", "en")
}

fn set(model: &mut Model, reference: (i32, i32), value: &str) {
    model
        .set_user_input(0, reference.0, reference.1, InputText::from_str(value))
        .unwrap();
}

fn text(model: &Model, reference: (i32, i32)) -> String {
    model.get_formatted_cell_value(0, reference.0, reference.1).unwrap()
}

#[test]
fn circular_reference_errors_without_iteration() {
    let mut model = new_empty_model();
    set(&mut model, (1, 1), "=B1/2 + 5");
    set(&mut model, (1, 2), "=A1");
    model.evaluate();
    assert_eq!(text(&model, (1, 1)), "#CIRC!");
    assert_eq!(text(&model, (1, 2)), "#CIRC!");
}

#[test]
fn iteration_settings_are_readable() {
    let mut model = new_empty_model();
    assert!(!model.get_iterative_calculation().iterate);
    model.set_iterative_calculation(true, Some(42), Some(0.5f64.to_bits()));
    let properties = model.get_iterative_calculation();
    assert!(properties.iterate);
    assert_eq!(properties.iterate_count, 42);
    assert_eq!(f64::from_bits(properties.iterate_delta), 0.5);
}

#[test]
fn default_iteration_settings() {
    let model = new_empty_model();
    let properties = model.get_iterative_calculation();
    assert_eq!(properties.iterate_count, 100);
    assert_eq!(f64::from_bits(properties.iterate_delta), 0.001);
}

#[test]
fn arithmetic_and_precedence() {
    let mut model = new_empty_model();
    set(&mut model, (1, 1), "=1+2*3");
    set(&mut model, (1, 2), "=(1+2)*3");
    set(&mut model, (1, 3), "=-A1 - 0.5");
    set(&mut model, (1, 4), "=10/4");
    set(&mut model, (1, 5), "=1/3");
    set(&mut model, (1, 6), "=2/3");
    assert_eq!(text(&model, (1, 1)), "7");
    assert_eq!(text(&model, (1, 2)), "9");
    assert_eq!(text(&model, (1, 3)), "-7.5");
    assert_eq!(text(&model, (1, 4)), "2.5");
    assert_eq!(text(&model, (1, 5)), "0.333333333333333");
    assert_eq!(text(&model, (1, 6)), "0.666666666666667");
}

#[test]
fn errors_propagate() {
    let mut model = new_empty_model();
    set(&mut model, (1, 1), "=1/0");
    set(&mut model, (1, 2), "=A1+1");
    set(&mut model, (1, 3), "=hello");
    set(&mut model, (1, 4), "text");
    set(&mut model, (1, 5), "=D1*2");
    set(&mut model, (1, 6), "=SUM(1,2)");
    assert_eq!(text(&model, (1, 1)), "#DIV/0!");
    assert_eq!(text(&model, (1, 2)), "#DIV/0!");
    assert_eq!(text(&model, (1, 3)), "#ERROR!");
    assert_eq!(text(&model, (1, 5)), "#VALUE!");
    assert_eq!(text(&model, (1, 6)), "#ERROR!");
}

#[test]
fn empty_cells_and_booleans_are_numbers_in_arithmetic() {
    let mut model = new_empty_model();
    set(&mut model, (1, 1), "=Z99+1");
    set(&mut model, (1, 2), "true");
    set(&mut model, (1, 3), "=B1+B1");
    assert_eq!(text(&model, (1, 1)), "1");
    assert_eq!(text(&model, (1, 2)), "TRUE");
    assert_eq!(text(&model, (1, 3)), "2");
}

#[test]
fn classify_inputs() {
    assert!(matches!(classify_input(""), Content::Empty));
    assert!(matches!(classify_input("=A1"), Content::Formula(f) if f == "A1"));
    assert!(matches!(classify_input("'=A1"), Content::Value(CellValue::Text(t)) if t == "=A1"));
    assert!(matches!(classify_input("FaLsE"), Content::Value(CellValue::Boolean(false))));
    assert!(matches!(classify_input("#n/a"), Content::Value(CellValue::Error(_))));
    assert!(matches!(classify_input("-12.50"), Content::Value(CellValue::Number(d)) if d.m == -125 && d.s == 1));
    assert!(matches!(classify_input("12a"), Content::Value(CellValue::Text(_))));
}

#[test]
fn number_literals() {
    assert_eq!(parse_number("007").map(|d| (d.m, d.s)), Some((7, 0)));
    assert_eq!(parse_number("+.5").map(|d| (d.m, d.s)), Some((5, 1)));
    assert_eq!(parse_number("."), None);
    assert_eq!(parse_number("1e3"), None);
    assert_eq!(parse_number("1000000000000000000"), None);
}

fn number(model: &Model, row: i32, column: i32) -> f64 {
    match model.get_cell_value_by_index(0, row, column).unwrap() {
        CellValue::Number(d) => d.m as f64 / 10f64.powi(d.s as i32),
        other => panic!("({row}, {column}) is not a number: {other:?}"),
    }
}

#[test]
fn non_circular_model_is_unaffected_by_iteration() {
    let mut model = new_empty_model();
    set(&mut model, (1, 1), "10");
    set(&mut model, (1, 2), "=A1 * 2");
    set(&mut model, (1, 3), "=B1 + 1");
    model.set_iterative_calculation(true, None, None);
    model.evaluate();
    assert_eq!(number(&model, 1, 2), 20.0);
    assert_eq!(number(&model, 1, 3), 21.0);
}

#[test]
fn convergent_pair_resolves_with_iteration() {
    let mut model = new_empty_model();
    set(&mut model, (1, 1), "=B1/2 + 5");
    set(&mut model, (1, 2), "=A1");
    model.set_iterative_calculation(true, Some(100), Some(0.001f64.to_bits()));
    model.evaluate();
    assert!((number(&model, 1, 1) - 10.0).abs() < 0.05, "A1 = {}", number(&model, 1, 1));
    assert!((number(&model, 1, 2) - 10.0).abs() < 0.05, "B1 = {}", number(&model, 1, 2));
}

#[test]
fn circular_interest_model_converges() {
    let mut model = new_empty_model();
    set(&mut model, (1, 1), "100");
    set(&mut model, (1, 2), "=A1 + C1");
    set(&mut model, (1, 3), "=B1 * 0.1");
    model.set_iterative_calculation(true, None, None);
    model.evaluate();
    assert!(
        (number(&model, 1, 2) - 1000.0 / 9.0).abs() < 0.01,
        "B1 = {}",
        number(&model, 1, 2)
    );
    assert!(
        (number(&model, 1, 3) - 100.0 / 9.0).abs() < 0.01,
        "C1 = {}",
        number(&model, 1, 3)
    );
}

#[test]
fn circular_data_table_converges_per_scenario_with_iteration() {
    let mut model = new_empty_model();
    set(&mut model, (1, 1), "0");
    set(&mut model, (1, 2), "=A1 + C1");
    set(&mut model, (1, 3), "=B1 * 0.1");
    set(&mut model, (2, 5), "=B1");
    set(&mut model, (3, 4), "100");
    set(&mut model, (4, 4), "200");
    set(&mut model, (5, 4), "900");
    let table = build_data_table("E3:E5", None, Some("A1")).unwrap();
    model.set_data_table(0, table).unwrap();

    model.set_iterative_calculation(true, Some(200), Some(0.0001f64.to_bits()));
    model.evaluate();

    assert!((number(&model, 3, 5) - 100.0 / 0.9).abs() < 0.01, "E3 = {}", number(&model, 3, 5));
    assert!((number(&model, 4, 5) - 200.0 / 0.9).abs() < 0.01, "E4 = {}", number(&model, 4, 5));
    assert!((number(&model, 5, 5) - 900.0 / 0.9).abs() < 0.01, "E5 = {}", number(&model, 5, 5));
}

#[test]
fn iteration_stops_when_passes_settle() {
    // With a coarse delta the pair stops early, short of the fixed point.
    let mut model = new_empty_model();
    set(&mut model, (1, 1), "=B1/2 + 5");
    set(&mut model, (1, 2), "=A1");
    model.set_iterative_calculation(true, Some(100), Some(3.0f64.to_bits()));
    // The passes give 5, then 7.5: a move of 2.5, within 3.
    assert_eq!(number(&model, 1, 1), 7.5);
    model.set_iterative_calculation(true, Some(1), None);
    assert_eq!(number(&model, 1, 1), 5.0);
}

#[test]
fn sum_and_average_of_a_range() {
    let mut model = new_empty_model();
    set(&mut model, (1, 1), "1");
    set(&mut model, (2, 1), "2.5");
    set(&mut model, (3, 1), "label");
    set(&mut model, (1, 2), "4");
    set(&mut model, (1, 3), "=SUM(A1:B3)");
    set(&mut model, (2, 3), "=average( B3:A1 )");
    set(&mut model, (3, 3), "=AVERAGE(D1:D4)");
    set(&mut model, (4, 3), "=SUM(A1:A2)*2");
    assert_eq!(text(&model, (1, 3)), "7.5");
    assert_eq!(text(&model, (2, 3)), "2.5");
    assert_eq!(text(&model, (3, 3)), "#DIV/0!");
    assert_eq!(text(&model, (4, 3)), "7");
}

#[test]
fn range_errors_and_cycles() {
    let mut model = new_empty_model();
    set(&mut model, (1, 1), "=1/0");
    set(&mut model, (2, 1), "3");
    set(&mut model, (1, 2), "=SUM(A1:A2)");
    set(&mut model, (2, 2), "=SUM(A2:B2)");
    set(&mut model, (3, 2), "=MAX(A1:A2)");
    assert_eq!(text(&model, (1, 2)), "#DIV/0!");
    assert_eq!(text(&model, (2, 2)), "#CIRC!");
    assert_eq!(text(&model, (3, 2)), "#ERROR!");
}
