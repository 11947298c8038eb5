use ironcalc_lotus::formula::{decode_formula, Cursor, FormulaOrigin};
use ironcalc_lotus::col_letters;
use ironcalc_lotus::text::cp437_to_string;

fn origin(row: u16, col: u8) -> FormulaOrigin {
    FormulaOrigin {
        sheet: 0,
        row,
        column: col,
    }
}

fn decoded_text(bytes: &[u8], o: FormulaOrigin) -> String {
    let (s, _) = decode_formula(bytes, o).unwrap();
    s.to_text().unwrap()
}

#[test]
fn col_letters_basic() {
    assert_eq!(col_letters(0), "A");
    assert_eq!(col_letters(25), "Z");
    assert_eq!(col_letters(26), "AA");
    assert_eq!(col_letters(701), "ZZ");
}

#[test]
fn absolute_cref() {
    // Cref token: rel=0, row=0, tab=0, col=2  ->  $C$1
    let bytes = [0x01, 0x00, 0x00, 0x00, 0x00, 0x02, 0x03];
    assert_eq!(decoded_text(&bytes, origin(0, 0)), "$C$1");
}

#[test]
fn binary_addition_constants() {
    let mut bytes: Vec<u8> = vec![0x00];
    bytes.extend(2.0f64.to_le_bytes());
    bytes.push(0x00);
    bytes.extend(3.0f64.to_le_bytes());
    bytes.push(0x0F);
    bytes.push(0x03);
    assert_eq!(decoded_text(&bytes, origin(0, 0)), "(2+3)");
}

#[test]
fn sum_var_arity() {
    let mut bytes: Vec<u8> = Vec::new();
    bytes.push(0x00);
    bytes.extend(2.0f64.to_le_bytes());
    bytes.push(0x00);
    bytes.extend(3.0f64.to_le_bytes());
    bytes.push(80);
    bytes.push(2);
    bytes.push(0x03);
    assert_eq!(decoded_text(&bytes, origin(0, 0)), "SUM(2,3)");
}

#[test]
fn col_letters_three_letters() {
    assert_eq!(col_letters(702), "AAA");
    assert_eq!(col_letters(16383), "XFD");
}

#[test]
fn relative_reference_has_no_dollar_signs() {
    // rel=0x03: column and row relative; row 1, tab 0, column 1 -> B2
    let bytes = [0x01, 0x03, 0x01, 0x00, 0x00, 0x01, 0x03];
    assert_eq!(decoded_text(&bytes, origin(5, 5)), "B2");
}

#[test]
fn reference_to_another_sheet_is_marked() {
    let bytes = [0x01, 0x03, 0x00, 0x00, 0x02, 0x00, 0x03];
    assert_eq!(decoded_text(&bytes, origin(0, 0)), "__LOTUS_TAB2__!A1");
}

#[test]
fn consumed_bytes_stop_at_return() {
    let bytes = [0x01, 0x00, 0x00, 0x00, 0x00, 0x02, 0x03, 0xFF, 0xFF];
    let (_, consumed) = decode_formula(&bytes, origin(0, 0)).unwrap();
    assert_eq!(consumed, 7);
}

#[test]
fn truncated_formula_is_an_error() {
    let bytes = [0x01, 0x00, 0x00];
    let err = decode_formula(&bytes, origin(0, 0)).unwrap_err();
    assert!(err.message().starts_with("I/O error"));
}

#[test]
fn empty_stack_is_a_formula_error() {
    let bytes = [0x03];
    let err = decode_formula(&bytes, origin(4, 2)).unwrap_err();
    assert_eq!(
        err.message(),
        "Malformed formula in cell 0!24: empty formula stack"
    );
}

#[test]
fn cp437_keeps_ascii_and_maps_the_upper_half() {
    assert_eq!(cp437_to_string(b"Sales 1991"), "Sales 1991");
    assert_eq!(cp437_to_string(&[0x41, 0x82, 0xE1, 0x9C]), "A\u{e9}\u{df}\u{a3}");
}

#[test]
fn short_call_keeps_argument_order() {
    // IF needs three arguments; only 1 and 2 are on the stack.
    let mut bytes: Vec<u8> = Vec::new();
    bytes.push(0x00);
    bytes.extend(1.0f64.to_le_bytes());
    bytes.push(0x00);
    bytes.extend(2.0f64.to_le_bytes());
    bytes.push(59);
    bytes.push(0x03);
    assert_eq!(decoded_text(&bytes, origin(0, 0)), "IF(1,2)");
}

#[test]
fn cursor_past_the_end_reports_underflow() {
    let bytes = [1u8, 2];
    let mut c = Cursor::new(&bytes);
    c.pos = 5;
    assert!(c.read_u8().is_err());
    assert!(c.read_u16().is_err());
    assert!(c.skip(1).is_err());
    assert_eq!(c.pos, 5);
}
