use ironcalc_lotus::engine::{number_decimal_exec, CellValue};
use ironcalc_lotus::number::Number;
use ironcalc_lotus::input::InputText;
use ironcalc_lotus::record::{load_from_wk3_bytes, load_into_model};
use ironcalc_lotus::workbook::Model;
use ironcalc_lotus::style::{BorderStyle, HorizontalAlignment};

fn bof_body() -> [u8; 26] {
    let mut b = [0u8; 26];
    b[0..2].copy_from_slice(&0x1000u16.to_le_bytes());
    b[2..4].copy_from_slice(&0x0004u16.to_le_bytes());
    b
}

fn write_record(out: &mut Vec<u8>, opcode: u16, body: &[u8]) {
    out.extend_from_slice(&opcode.to_le_bytes());
    out.extend_from_slice(&(body.len() as u16).to_le_bytes());
    out.extend_from_slice(body);
}

fn synthetic_styled_wk3() -> Vec<u8> {
    let mut out = Vec::new();
    write_record(&mut out, 0x0000, &bof_body());

    let mut label = Vec::new();
    label.extend_from_slice(&0u16.to_le_bytes());
    label.push(0);
    label.push(0);
    label.push(b'\'');
    label.extend_from_slice(b"Hello\0");
    write_record(&mut out, 0x0016, &label);

    let mut font_face = Vec::new();
    font_face.push(0);
    font_face.extend_from_slice(b"Courier\0");
    write_record(&mut out, 174, &font_face);

    let mut font_type = vec![0u8; 16];
    font_type[0..2].copy_from_slice(&0x0001u16.to_le_bytes());
    write_record(&mut out, 176, &font_type);

    let mut font_size = vec![0u8; 16];
    font_size[0..2].copy_from_slice(&280u16.to_le_bytes());
    write_record(&mut out, 177, &font_size);

    let mut row_record = Vec::new();
    row_record.extend_from_slice(&0u16.to_le_bytes());
    row_record.extend_from_slice(&0u16.to_le_bytes());
    row_record.push(0);
    row_record.push(0b01010101);
    row_record.push(4);
    row_record.push(0x82);
    row_record.push(1);
    write_record(&mut out, 0x00C5, &row_record);

    write_record(&mut out, 0x0001, &[]);
    out
}

#[test]
fn synthetic_styling_pipeline() {
    let bytes = synthetic_styled_wk3();
    let model = load_from_wk3_bytes(&bytes, "synthetic", "en", "UTC", "en")
        .expect("load synthetic WK3 bytes");

    let val = model.get_cell_value_by_index(0, 1, 1).unwrap();
    match val {
        CellValue::Text(s) => assert_eq!(s, "Hello"),
        other => panic!("expected 'Hello' at A1, got {other:?}"),
    }

    let style = model.get_style_for_cell(0, 1, 1).expect("style A1");
    assert_eq!(style.font.name, "Courier", "font name");
    assert!(style.font.b, "bold");
    assert_eq!(style.font.sz, 14, "font size");

    assert_eq!(
        style.border.left.as_ref().map(|b| &b.style),
        Some(&BorderStyle::Thin),
        "left border"
    );
    assert_eq!(
        style.border.right.as_ref().map(|b| &b.style),
        Some(&BorderStyle::Thin),
        "right border"
    );
    assert_eq!(
        style.border.top.as_ref().map(|b| &b.style),
        Some(&BorderStyle::Thin),
        "top border"
    );
    assert_eq!(
        style.border.bottom.as_ref().map(|b| &b.style),
        Some(&BorderStyle::Thin),
        "bottom border"
    );

    assert_eq!(
        style.fill.fg_color.as_deref(),
        Some("#00FF00"),
        "background"
    );

    assert_eq!(
        style.alignment.map(|a| a.horizontal),
        Some(HorizontalAlignment::Center)
    );

    let style_b1 = model.get_style_for_cell(0, 1, 2).expect("style B1");
    assert_eq!(style_b1.font.name, "Courier");
    assert!(style_b1.font.b);
}

fn with_bof(records: &[(u16, Vec<u8>)]) -> Vec<u8> {
    let mut out = Vec::new();
    write_record(&mut out, 0x0000, &bof_body());
    for (op, body) in records {
        write_record(&mut out, *op, body);
    }
    out
}

fn cell_address(row: u16, tab: u8, col: u8) -> Vec<u8> {
    let mut v = Vec::new();
    v.extend_from_slice(&row.to_le_bytes());
    v.push(tab);
    v.push(col);
    v
}

#[test]
fn empty_file_is_not_wk3() {
    let err = load_from_wk3_bytes(&[], "x", "en", "UTC", "en").unwrap_err();
    assert_eq!(err.message(), "Not a Lotus WK3 file: empty file");
}

#[test]
fn wrong_first_record_is_not_wk3() {
    let mut out = Vec::new();
    write_record(&mut out, 0x0016, &[0, 0, 0, 0]);
    let err = load_from_wk3_bytes(&out, "x", "en", "UTC", "en").unwrap_err();
    assert_eq!(err.message(), "Not a Lotus WK3 file: expected BOF, got opcode 0x0016");
}

#[test]
fn wrong_file_code_is_not_wk3() {
    let mut out = Vec::new();
    write_record(&mut out, 0x0000, &[0x04, 0x04, 0x06, 0x00]);
    let err = load_from_wk3_bytes(&out, "x", "en", "UTC", "en").unwrap_err();
    assert_eq!(
        err.message(),
        "Not a Lotus WK3 file: file_code=0x0404 file_sub=0x0006 (expected 0x1000/0x0004)"
    );
}

#[test]
fn truncated_record_is_reported() {
    let mut out = with_bof(&[]);
    out.extend_from_slice(&[0x16, 0x00, 0x10, 0x00, 1, 2]);
    let err = load_from_wk3_bytes(&out, "x", "en", "UTC", "en").unwrap_err();
    assert_eq!(
        err.message(),
        "Truncated record at offset 30: opcode 0x0016 expected 16 bytes"
    );
}

#[test]
fn password_record_is_refused() {
    let out = with_bof(&[(0x0002, vec![1, 2, 3])]);
    let err = load_from_wk3_bytes(&out, "x", "en", "UTC", "en").unwrap_err();
    assert_eq!(err.message(), "Not a Lotus WK3 file: encrypted WK3 files are not supported");
}

#[test]
fn short_cell_record_is_an_error() {
    let out = with_bof(&[(0x0017, vec![0, 0])]);
    let err = load_from_wk3_bytes(&out, "x", "en", "UTC", "en").unwrap_err();
    assert_eq!(err.message(), "I/O error: cell record too short (2 bytes)");
}

#[test]
fn number_and_small_number_cells() {
    let mut number = cell_address(1, 0, 2);
    number.extend(1234.0f64.to_le_bytes());
    let mut small = cell_address(2, 0, 2);
    small.extend_from_slice(&0x2710u16.to_le_bytes());
    let out = with_bof(&[(0x0017, number), (0x0018, small)]);
    let model = load_from_wk3_bytes(&out, "x", "en", "UTC", "en").unwrap();
    assert_eq!(model.get_formatted_cell_value(0, 2, 3).unwrap(), "1234");
    assert_eq!(model.get_formatted_cell_value(0, 3, 3).unwrap(), "5000");
    assert_eq!(model.worksheets[0].name, "A");
}

#[test]
fn error_and_na_cells_are_text() {
    let out = with_bof(&[(0x0014, cell_address(0, 0, 0)), (0x0015, cell_address(0, 0, 1))]);
    let model = load_from_wk3_bytes(&out, "x", "en", "UTC", "en").unwrap();
    assert_eq!(model.get_formatted_cell_value(0, 1, 1).unwrap(), "#REF!");
    assert_eq!(model.get_formatted_cell_value(0, 1, 2).unwrap(), "#N/A");
}

#[test]
fn cells_on_later_sheets_add_lotus_sheets() {
    let mut label = cell_address(0, 2, 0);
    label.push(b'\'');
    label.extend_from_slice(b"Sheet C\0");
    let out = with_bof(&[(0x0016, label)]);
    let model = load_from_wk3_bytes(&out, "x", "en", "UTC", "en").unwrap();
    let names: Vec<String> = model.worksheets.iter().map(|w| w.name.clone()).collect();
    assert_eq!(names, vec!["A", "B", "C"]);
    assert_eq!(model.get_formatted_cell_value(2, 1, 1).unwrap(), "Sheet C");
}

#[test]
fn formula_cell_holds_its_formula() {
    let mut formula = cell_address(0, 0, 3);
    formula.extend_from_slice(&[0u8; 10]);
    formula.extend_from_slice(&[0x01, 0x00, 0x00, 0x00, 0x00, 0x02, 0x03]);
    let out = with_bof(&[(0x0019, formula)]);
    let model = load_from_wk3_bytes(&out, "x", "en", "UTC", "en").unwrap();
    let input = model.worksheets[0].cells[0].input.as_ref().unwrap();
    assert_eq!(input.to_text().unwrap(), "=$C$1");
}

#[test]
fn named_sheet_and_user_range() {
    let mut named = Vec::new();
    named.extend_from_slice(&14000u16.to_le_bytes());
    named.extend_from_slice(&0u16.to_le_bytes());
    named.extend_from_slice(b"Sales: 1991\0");
    let mut range = Vec::new();
    range.extend_from_slice(&0u16.to_le_bytes());
    let mut name = [0u8; 16];
    name[..5].copy_from_slice(b"TOTAL");
    range.extend_from_slice(&name);
    range.extend_from_slice(&cell_address(4, 0, 1));
    range.extend_from_slice(&cell_address(9, 0, 2));
    let out = with_bof(&[(0x001B, named), (0x0009, range)]);
    let model = load_from_wk3_bytes(&out, "x", "en", "UTC", "en").unwrap();
    assert_eq!(model.worksheets[0].name, "Sales_ 1991");
    assert_eq!(model.defined_names.len(), 1);
    assert_eq!(model.defined_names[0].name, "TOTAL");
    assert_eq!(model.defined_names[0].formula, "'Sales_ 1991'!$B$5:$C$10");
}

#[test]
fn column_widths_hidden_columns_and_row_heights() {
    let widths = vec![0, 0, 0, 0, 1, 12, 2, 0];
    let hidden = vec![0, 0, 0, 0, 3];
    let mut presentation = Vec::new();
    presentation.extend_from_slice(&2007u16.to_le_bytes());
    presentation.push(0);
    presentation.push(0);
    presentation.extend_from_slice(&4u16.to_le_bytes());
    presentation.extend_from_slice(&0x0040u16.to_le_bytes());
    presentation.extend_from_slice(&[0, 0, 0x02, 0]);
    let out = with_bof(&[(0x0007, widths), (0x0008, hidden), (0x001B, presentation)]);
    let model = load_from_wk3_bytes(&out, "x", "en", "UTC", "en").unwrap();
    let sheet = &model.worksheets[0];
    assert_eq!(sheet.columns.len(), 2);
    assert_eq!(sheet.columns[0].column, 2);
    assert_eq!(sheet.columns[0].width, Some(12));
    assert_eq!(sheet.columns[1].column, 4);
    assert!(sheet.columns[1].hidden);
    assert_eq!(sheet.rows.len(), 1);
    assert_eq!(sheet.rows[0].row, 5);
    assert_eq!(sheet.rows[0].height, 0x0040);
}

#[test]
fn rejected_header_leaves_the_model_alone() {
    let mut model = Model::new_empty("x", "en", "UTC", "en");
    model.set_user_input(0, 1, 1, InputText::from_str("kept")).unwrap();
    let mut out = Vec::new();
    write_record(&mut out, 0x0000, &[0x00, 0x10, 0x05, 0x00]);
    assert!(load_into_model(&out, &mut model).is_err());
    assert!(load_into_model(&[], &mut model).is_err());
    assert_eq!(model.worksheets.len(), 1);
    assert_eq!(model.get_formatted_cell_value(0, 1, 1).unwrap(), "kept");
}

#[test]
fn nothing_after_eof_is_read() {
    let mut out = with_bof(&[(0x0014, cell_address(0, 0, 0))]);
    write_record(&mut out, 0x0001, &[]);
    let head = out.clone();
    // A cell record and then a truncated header after the EOF.
    write_record(&mut out, 0x0015, &cell_address(0, 0, 1));
    out.extend_from_slice(&[0x16, 0x00]);
    let a = load_from_wk3_bytes(&out, "x", "en", "UTC", "en").unwrap();
    let b = load_from_wk3_bytes(&head, "x", "en", "UTC", "en").unwrap();
    assert_eq!(a.get_formatted_cell_value(0, 1, 1).unwrap(), "#REF!");
    assert_eq!(a.get_formatted_cell_value(0, 1, 2).unwrap(), "");
    assert_eq!(b.get_formatted_cell_value(0, 1, 2).unwrap(), "");
}

#[test]
fn failed_record_keeps_the_records_before_it() {
    let mut model = Model::new_empty("x", "en", "UTC", "en");
    let mut number = cell_address(0, 0, 1);
    number.extend_from_slice(&[0, 0]);
    let out = with_bof(&[(0x0014, cell_address(0, 0, 0)), (0x0017, number)]);
    let err = load_into_model(&out, &mut model).unwrap_err();
    assert_eq!(err.message(), "I/O error: NUMBERCELL too short");
    assert_eq!(model.worksheets[0].name, "A");
    assert_eq!(model.get_formatted_cell_value(0, 1, 1).unwrap(), "#REF!");
}

#[test]
fn imported_fractions_have_decimal_values() {
    let mut number = cell_address(0, 0, 0);
    number.extend(0.1f64.to_le_bytes());
    let mut big = cell_address(1, 0, 0);
    big.extend(1234.5678f64.to_le_bytes());
    let mut third = cell_address(2, 0, 0);
    third.extend((1.0f64 / 3.0).to_le_bytes());
    let mut small = cell_address(3, 0, 0);
    // Low bit set, factor 0.05 (index 2), value 3: 0.15.
    small.extend_from_slice(&(((3i16 << 4) | (2 << 1) | 1) as u16).to_le_bytes());
    let out = with_bof(&[(0x0017, number), (0x0017, big), (0x0017, third), (0x0018, small)]);
    let model = load_from_wk3_bytes(&out, "x", "en", "UTC", "en").unwrap();
    assert_eq!(model.get_formatted_cell_value(0, 1, 1).unwrap(), "0.1");
    assert_eq!(model.get_formatted_cell_value(0, 2, 1).unwrap(), "1234.5678");
    assert_eq!(model.get_formatted_cell_value(0, 3, 1).unwrap(), "0.333333333333333");
    assert_eq!(model.get_formatted_cell_value(0, 4, 1).unwrap(), "0.15");
}

#[test]
fn extended_doubles_have_decimal_values() {
    use_extended();
}

fn use_extended() {
    // 2.5 as an x87 extended double: mantissa 0xA000_0000_0000_0000, exponent 16384.
    let mut bytes = [0u8; 10];
    bytes[0..8].copy_from_slice(&0xA000_0000_0000_0000u64.to_le_bytes());
    bytes[8..10].copy_from_slice(&16384u16.to_le_bytes());
    assert_eq!(
        number_decimal_exec(Number::Extended(bytes)).map(|d| (d.m, d.s)),
        Some((25, 1))
    );
    // 0.1 as a double, rounded to 15 places.
    assert_eq!(number_decimal_exec(Number::Double(0.1f64.to_bits())).map(|d| (d.m, d.s)), Some((1, 1)));
    assert_eq!(number_decimal_exec(Number::Double(f64::NAN.to_bits())).map(|d| (d.m, d.s)), None);
    assert_eq!(number_decimal_exec(Number::Double(1e20f64.to_bits())).map(|d| (d.m, d.s)), None);
}
