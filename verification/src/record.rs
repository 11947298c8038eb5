//! Reading a WK3 file record by record into a [`Model`].
//!
//! A WK3 file is a sequence of records: a little-endian `u16` opcode, a
//! `u16` payload length, then the payload. The first record must be a BOF
//! declaring a WK3 file (file code 0x1000, sub-code 0x0004). Cell records
//! (labels, numbers, formulas, error and N/A cells), column widths, hidden
//! columns, named ranges, sheet names, row heights and the styling records
//! (fonts, patterns and per-row attributes) are applied to the workbook;
//! other records are skipped. Reading stops at EOF.
//!
//! Each record's effect on the workbook is stated as a spec function over
//! [`ModelView`], and [`imported`] composes them over the whole file.

use vstd::prelude::*;

use crate::error::{LotusError, LotusErrorView};
use crate::formula::{
    decode_formula, decoded_formula, law_cell_reference_text, sanitize_name, sanitized_name, u64_at, FormulaOrigin,
};
use crate::input::{text_piece, InputText};
use crate::number::{number_pieces, number_pieces_exec, Number, PieceView};
use crate::style::{
    build_style, built_style, decode_font_face, decode_font_size, decode_font_type, decode_pattern,
    le16, nul_terminated_string, nul_terminated_text, pattern_of, update_slot, with_font_sizes,
    with_font_types, FontEntryView, LotAttr, StyleCache, StyleCacheView, StyleView, FONT_TABLE_SIZE,
};
use crate::text::{
    all_ascii, alphanumeric, char_is_alphanumeric, col_letters, is_ascii_alphanumeric, column_letters, decimal, hex4, push_char,
    push_column_letters, push_decimal, push_hex4, str_eq,
};
use crate::workbook::{
    add_sheet_error, cells_with_input, cells_with_style, columns_with, defined, empty_sheet,
    forbidden_sheet_char, name_taken, new_model, rows_with, style_at, valid_sheet_name, Model,
    ModelView, SheetView, LAST_COLUMN, LAST_ROW,
};

verus! {

pub const OP_BOF: u16 = 0x0000;

pub const OP_EOF: u16 = 0x0001;

pub const OP_PASSWORD: u16 = 0x0002;

pub const OP_COLUMNWIDTH: u16 = 0x0007;

pub const OP_HIDDENCOLUMN: u16 = 0x0008;

pub const OP_USERRANGE: u16 = 0x0009;

pub const OP_ERRCELL: u16 = 0x0014;

pub const OP_NACELL: u16 = 0x0015;

pub const OP_LABELCELL: u16 = 0x0016;

pub const OP_NUMBERCELL: u16 = 0x0017;

pub const OP_SMALLNUMCELL: u16 = 0x0018;

pub const OP_FORMULACELL: u16 = 0x0019;

pub const OP_EXTENDED_ATTR: u16 = 0x001B;

pub const OP_FONT_FACE: u16 = 174;

pub const OP_FONT_TYPE: u16 = 176;

pub const OP_FONT_SIZE: u16 = 177;

pub const OP_ROW_RECORD: u16 = 0x00C5;

pub const SUBTYPE_ROW_PRESENTATION: u16 = 2007;

pub const SUBTYPE_NAMED_SHEET: u16 = 14000;

// ---------------------------------------------------------------------------
// Records
// ---------------------------------------------------------------------------

/// The record that starts at `pos`: `None` at the end of the buffer, an
/// error when its header or payload runs past the end, else its opcode and
/// the bounds of its payload.
pub open spec fn record_at(buf: Seq<u8>, pos: nat) -> Option<Result<(u16, nat, nat), LotusErrorView>> {
    if pos >= buf.len() {
        None
    } else if pos + 4 > buf.len() {
        Some(Err(LotusErrorView::Truncated { offset: pos as u64, opcode: 0, expected: 4 }))
    } else {
        let opcode = le16(buf, pos as int);
        let length = le16(buf, pos + 2int);
        if pos + 4 + length > buf.len() {
            Some(
                Err(
                    LotusErrorView::Truncated {
                        offset: pos as u64,
                        opcode,
                        expected: length as usize,
                    },
                ),
            )
        } else {
            Some(Ok((opcode, (pos + 4) as nat, (pos + 4 + length) as nat)))
        }
    }
}

/// Little-endian `u16` at `at`.
fn u16_le(buf: &[u8], at: usize) -> (r: u16)
    requires
        at + 1 < buf@.len(),
    ensures
        r == le16(buf@, at as int),
{
    buf[at] as u16 + 256 * (buf[at + 1] as u16)
}

/// A record: its opcode and payload.
struct Record<'a> {
    opcode: u16,
    payload: &'a [u8],
}

/// Reads the records of a buffer in order.
struct RecReader<'a> {
    buf: &'a [u8],
    pos: usize,
}

impl<'a> RecReader<'a> {
    fn new(buf: &'a [u8]) -> (r: RecReader<'a>)
        ensures
            r.buf == buf,
            r.pos == 0,
    {
        RecReader { buf, pos: 0 }
    }

    fn next_record(&mut self) -> (r: Result<Option<Record<'a>>, LotusError>)
        requires
            old(self).pos <= old(self).buf@.len(),
        ensures
            final(self).buf == old(self).buf,
            final(self).pos <= final(self).buf@.len(),
            match record_at(old(self).buf@, old(self).pos as nat) {
                None => r matches Ok(None) && final(self).pos == old(self).pos,
                Some(Err(e)) => r matches Err(x) && x@ == e && final(self).pos == old(self).pos,
                Some(Ok((op, s, e))) => r matches Ok(Some(rec)) && rec.opcode == op
                    && rec.payload@ == old(self).buf@.subrange(s as int, e as int) && final(self).pos
                    == e && rec.payload@.len() <= 0xFFFF,
            },
    {
        if self.pos >= self.buf.len() {
            return Ok(None);
        }
        if self.buf.len() - self.pos < 4 {
            return Err(LotusError::Truncated { offset: self.pos as u64, opcode: 0, expected: 4 });
        }
        let opcode = u16_le(self.buf, self.pos);
        let length = u16_le(self.buf, self.pos + 2);
        let body_start = self.pos + 4;
        if self.buf.len() - body_start < length as usize {
            return Err(
                LotusError::Truncated {
                    offset: self.pos as u64,
                    opcode,
                    expected: length as usize,
                },
            );
        }
        let body_end = body_start + length as usize;
        let payload = &self.buf[body_start..body_end];
        self.pos = body_end;
        Ok(Some(Record { opcode, payload }))
    }
}

/// The message of a cell record too short to hold its address.
pub open spec fn short_cell(p: Seq<u8>) -> LotusErrorView {
    LotusErrorView::IO("cell record too short ("@ + decimal(p.len()) + " bytes)"@)
}

/// Sheet, row and column of a cell record (a `u16` row, then the sheet and
/// column bytes).
fn read_address(payload: &[u8]) -> (r: Result<(u8, u16, u8), LotusError>)
    ensures
        payload@.len() < 4 ==> (r matches Err(e) && e@ == short_cell(payload@)),
        payload@.len() >= 4 ==> r == Ok::<(u8, u16, u8), LotusError>(
            (payload@[2], le16(payload@, 0), payload@[3]),
        ),
{
    if payload.len() < 4 {
        let mut m = String::from_str("cell record too short (");
        push_decimal(&mut m, payload.len() as u128);
        m.append(" bytes)");
        return Err(LotusError::IO(m));
    }
    Ok((payload[2], u16_le(payload, 0), payload[3]))
}

// ---------------------------------------------------------------------------
// Sheets
// ---------------------------------------------------------------------------

/// The workbook after renaming sheet `sheet` to `name`, when that rename is
/// allowed (the sheet exists, the name is valid and no other sheet has it);
/// otherwise unchanged.
pub open spec fn renamed(m: ModelView, sheet: int, name: Seq<char>) -> ModelView {
    if 0 <= sheet < m.sheets.len() && valid_sheet_name(name) && !name_taken(m.sheets, name, sheet) {
        ModelView { sheets: m.sheets.update(sheet, SheetView { name, ..m.sheets[sheet] }), ..m }
    } else {
        m
    }
}

/// The workbook with its first sheet renamed from `Sheet1` to `A`, Lotus's
/// name for it, when it still has the name a new workbook gives it.
pub open spec fn promoted(m: ModelView) -> ModelView {
    if m.sheets.len() > 0 && m.sheets[0].name == "Sheet1"@ {
        renamed(m, 0, "A"@)
    } else {
        m
    }
}

/// Name of the sheet added at index `idx`: the column letters of `idx`
/// (Lotus names sheets `A`, `B`, ..., `AA`, ...), or, when a sheet already
/// has that name, the letters followed by `_` and `idx`.
pub open spec fn added_sheet_name(sheets: Seq<SheetView>, idx: nat) -> Seq<char> {
    if !name_taken(sheets, column_letters(idx), -1) {
        column_letters(idx)
    } else {
        column_letters(idx) + "_"@ + decimal(idx)
    }
}

/// The workbook after sheets are added until it has `needed` of them.
pub open spec fn grown(m: ModelView, needed: nat) -> Result<ModelView, LotusErrorView>
    decreases needed - m.sheets.len(),
{
    if m.sheets.len() >= needed {
        Ok(m)
    } else {
        let name = added_sheet_name(m.sheets, m.sheets.len());
        if valid_sheet_name(name) && !name_taken(m.sheets, name, -1) {
            grown(ModelView { sheets: m.sheets.push(empty_sheet(name)), ..m }, needed)
        } else {
            Err(LotusErrorView::Workbook(add_sheet_error(name)))
        }
    }
}

/// The workbook that adding sheets until there are `needed` of them leaves,
/// whether it succeeds or stops at a sheet that cannot be added.
pub open spec fn grown_state(m: ModelView, needed: nat) -> ModelView
    decreases needed - m.sheets.len(),
{
    if m.sheets.len() >= needed {
        m
    } else {
        let name = added_sheet_name(m.sheets, m.sheets.len());
        if valid_sheet_name(name) && !name_taken(m.sheets, name, -1) {
            grown_state(ModelView { sheets: m.sheets.push(empty_sheet(name)), ..m }, needed)
        } else {
            m
        }
    }
}

/// The workbook that making sure of sheet `tab` leaves, whether or not it
/// succeeds.
pub open spec fn ensured_state(m: ModelView, tab: u8) -> ModelView {
    grown_state(promoted(m), tab as nat + 1)
}

proof fn lemma_grown_state(m: ModelView, needed: nat)
    ensures
        grown(m, needed) matches Ok(m1) ==> m1 == grown_state(m, needed),
    decreases needed - m.sheets.len(),
{
    if m.sheets.len() < needed {
        let name = added_sheet_name(m.sheets, m.sheets.len());
        if valid_sheet_name(name) && !name_taken(m.sheets, name, -1) {
            lemma_grown_state(ModelView { sheets: m.sheets.push(empty_sheet(name)), ..m }, needed);
        }
    }
}

/// The workbook once sheet `tab` exists (see [`promoted`] and [`grown`]).
pub open spec fn ensured(m: ModelView, tab: u8) -> Result<ModelView, LotusErrorView> {
    grown(promoted(m), tab as nat + 1)
}

/// Makes sure sheet `tab` exists and returns its index.
fn ensure_sheet(model: &mut Model, tab: u8) -> (r: Result<u32, LotusError>)
    ensures
        match ensured(old(model)@, tab) {
            Ok(m) => r == Ok::<u32, LotusError>(tab as u32) && final(model)@ == m,
            Err(e) => r matches Err(x) && x@ == e,
        },
        r is Ok ==> (tab as int) < final(model)@.sheets.len(),
        final(model)@ == ensured_state(old(model)@, tab),
{
    proof {
        lemma_grown_state(promoted(old(model)@), tab as nat + 1);
    }
    proof {
        reveal_strlit("A");
    }
    if model.worksheets.len() > 0 && str_eq(model.worksheets[0].name.as_str(), "Sheet1") {
        assert(model@.sheets[0] == model.worksheets@[0]@);
        let _ = model.rename_sheet_by_index(0, "A");
    }
    assert(model@ == promoted(old(model)@));
    let needed: usize = tab as usize + 1;
    while model.worksheets.len() < needed
        invariant
            needed == tab as nat + 1,
            grown(model@, needed as nat) == ensured(old(model)@, tab),
            grown_state(model@, needed as nat) == ensured_state(old(model)@, tab),
        decreases needed - model.worksheets@.len(),
    {
        let next_index = model.worksheets.len();
        let name = col_letters(next_index as u32);
        let name = if !model.name_taken_exec(name.as_str(), None) {
            name
        } else {
            let mut n = name;
            n.append("_");
            push_decimal(&mut n, next_index as u128);
            n
        };
        assert(name@ == added_sheet_name(model@.sheets, model@.sheets.len()));
        match model.add_sheet(name.as_str()) {
            Ok(()) => {},
            Err(e) => {
                return Err(LotusError::Workbook(e));
            },
        }
    }
    Ok(tab as u32)
}

// ---------------------------------------------------------------------------
// Cells
// ---------------------------------------------------------------------------

/// The workbook after the input of the cell at zero-based `row` and `col`
/// of sheet `sheet` is set to `input`.
pub open spec fn with_input(m: ModelView, sheet: int, row: u16, col: u8, input: Seq<PieceView>) -> ModelView {
    ModelView {
        sheets: m.sheets.update(
            sheet,
            SheetView {
                cells: cells_with_input(
                    m.sheets[sheet].cells,
                    (row + 1) as i32,
                    (col + 1) as i32,
                    input,
                ),
                ..m.sheets[sheet]
            },
        ),
        ..m
    }
}

/// Input that shows `text` as text: a leading `'` keeps a label that looks
/// like a number or a formula from being read as one.
pub open spec fn text_input(text: Seq<char>) -> Seq<PieceView> {
    text_piece(seq!['\''] + text)
}

fn set_input(model: &mut Model, sheet: u32, row: u16, col: u8, input: InputText)
    requires
        (sheet as int) < old(model)@.sheets.len(),
    ensures
        final(model)@ == with_input(old(model)@, sheet as int, row, col, input@),
{
    let _ = model.set_user_input(sheet, row as i32 + 1, col as i32 + 1, input);
}

fn set_text(model: &mut Model, sheet: u32, row: u16, col: u8, text: &str)
    requires
        (sheet as int) < old(model)@.sheets.len(),
    ensures
        final(model)@ == with_input(old(model)@, sheet as int, row, col, text_input(text@)),
{
    let mut s = String::new();
    push_char(&mut s, '\'');
    s.append(text);
    set_input(model, sheet, row, col, InputText::from_string(s));
}

fn set_number(model: &mut Model, sheet: u32, row: u16, col: u8, n: Number)
    requires
        (sheet as int) < old(model)@.sheets.len(),
    ensures
        final(model)@ == with_input(old(model)@, sheet as int, row, col, number_pieces(n)),
{
    let pieces = number_pieces_exec(n);
    let input = InputText { pieces };
    assert(input@ == number_pieces(n));
    set_input(model, sheet, row, col, input);
}

/// LABELCELL: the text after the alignment prefix byte, up to a NUL.
pub open spec fn label_cell(m: ModelView, p: Seq<u8>) -> Result<ModelView, LotusErrorView> {
    if p.len() < 4 {
        Err(short_cell(p))
    } else {
        match ensured(m, p[2]) {
            Err(e) => Err(e),
            Ok(m1) => if p.len() < 5 {
                Ok(m1)
            } else {
                Ok(with_input(m1, p[2] as int, le16(p, 0), p[3], text_input(nul_terminated_text(p.skip(5)))))
            },
        }
    }
}

fn handle_label_cell(model: &mut Model, payload: &[u8]) -> (r: Result<(), LotusError>)
    ensures
        match label_cell(old(model)@, payload@) {
            Ok(m) => r is Ok && final(model)@ == m,
            Err(e) => r matches Err(x) && x@ == e,
        },
        r is Err ==> final(model)@ == cell_failed_state(old(model)@, payload@),
{
    let (tab, row, col) = read_address(payload)?;
    let sheet = ensure_sheet(model, tab)?;
    if payload.len() < 5 {
        return Ok(());
    }
    let raw = &payload[5..payload.len()];
    assert(raw@ == payload@.skip(5));
    let text = nul_terminated_string(raw);
    set_text(model, sheet, row, col, text.as_str());
    Ok(())
}

/// ERRCELL and NACELL: a fixed text.
pub open spec fn simple_cell(m: ModelView, p: Seq<u8>, text: Seq<char>) -> Result<ModelView, LotusErrorView> {
    if p.len() < 4 {
        Err(short_cell(p))
    } else {
        match ensured(m, p[2]) {
            Err(e) => Err(e),
            Ok(m1) => Ok(with_input(m1, p[2] as int, le16(p, 0), p[3], text_input(text))),
        }
    }
}

fn handle_simple_cell(model: &mut Model, payload: &[u8], text: &str) -> (r: Result<(), LotusError>)
    ensures
        match simple_cell(old(model)@, payload@, text@) {
            Ok(m) => r is Ok && final(model)@ == m,
            Err(e) => r matches Err(x) && x@ == e,
        },
        r is Err ==> final(model)@ == cell_failed_state(old(model)@, payload@),
{
    let (tab, row, col) = read_address(payload)?;
    let sheet = ensure_sheet(model, tab)?;
    set_text(model, sheet, row, col, text);
    Ok(())
}

/// NUMBERCELL: an IEEE double in bytes 4 to 11.
pub open spec fn number_cell(m: ModelView, p: Seq<u8>) -> Result<ModelView, LotusErrorView> {
    if p.len() < 4 {
        Err(short_cell(p))
    } else {
        match ensured(m, p[2]) {
            Err(e) => Err(e),
            Ok(m1) => if p.len() < 12 {
                Err(LotusErrorView::IO("NUMBERCELL too short"@))
            } else {
                Ok(with_input(m1, p[2] as int, le16(p, 0), p[3], number_pieces(Number::Double(u64_at(p, 4)))))
            },
        }
    }
}

fn le_u64(b: &[u8], at: usize) -> (r: u64)
    requires
        at + 8 <= b@.len(),
    ensures
        r == u64_at(b@, at as int),
{
    let w0 = b[at] as u64 + 256 * (b[at + 1] as u64);
    let w1 = b[at + 2] as u64 + 256 * (b[at + 3] as u64);
    let w2 = b[at + 4] as u64 + 256 * (b[at + 5] as u64);
    let w3 = b[at + 6] as u64 + 256 * (b[at + 7] as u64);
    let lo = w0 + 65536 * w1;
    let hi = w2 + 65536 * w3;
    lo + 0x1_0000_0000 * hi
}

fn handle_number_cell(model: &mut Model, payload: &[u8]) -> (r: Result<(), LotusError>)
    ensures
        match number_cell(old(model)@, payload@) {
            Ok(m) => r is Ok && final(model)@ == m,
            Err(e) => r matches Err(x) && x@ == e,
        },
        r is Err ==> final(model)@ == cell_failed_state(old(model)@, payload@),
{
    let (tab, row, col) = read_address(payload)?;
    let sheet = ensure_sheet(model, tab)?;
    if payload.len() < 12 {
        return Err(LotusError::IO(String::from_str("NUMBERCELL too short")));
    }
    set_number(model, sheet, row, col, Number::Double(le_u64(payload, 4)));
    Ok(())
}

/// SMALLNUMCELL: a packed 16-bit number in bytes 4 and 5.
pub open spec fn small_num_cell(m: ModelView, p: Seq<u8>) -> Result<ModelView, LotusErrorView> {
    if p.len() < 4 {
        Err(short_cell(p))
    } else {
        match ensured(m, p[2]) {
            Err(e) => Err(e),
            Ok(m1) => if p.len() < 6 {
                Err(LotusErrorView::IO("SMALLNUMCELL too short"@))
            } else {
                Ok(with_input(m1, p[2] as int, le16(p, 0), p[3], number_pieces(Number::Small(le16(p, 4) as i16))))
            },
        }
    }
}

fn handle_small_num_cell(model: &mut Model, payload: &[u8]) -> (r: Result<(), LotusError>)
    ensures
        match small_num_cell(old(model)@, payload@) {
            Ok(m) => r is Ok && final(model)@ == m,
            Err(e) => r matches Err(x) && x@ == e,
        },
        r is Err ==> final(model)@ == cell_failed_state(old(model)@, payload@),
{
    let (tab, row, col) = read_address(payload)?;
    let sheet = ensure_sheet(model, tab)?;
    if payload.len() < 6 {
        return Err(LotusError::IO(String::from_str("SMALLNUMCELL too short")));
    }
    let raw = u16_le(payload, 4) as i16;
    set_number(model, sheet, row, col, Number::Small(raw));
    Ok(())
}

/// The cached result of a formula cell: the 80-bit extended double in
/// bytes 4 to 13.
pub open spec fn cached_result(p: Seq<u8>) -> Number {
    Number::Extended([p[4], p[5], p[6], p[7], p[8], p[9], p[10], p[11], p[12], p[13]])
}

/// Input of a formula cell: `=` and the decoded formula, or the cached
/// result when the formula cannot be decoded.
pub open spec fn formula_input(p: Seq<u8>) -> Seq<PieceView> {
    match decoded_formula(p.skip(14), FormulaOrigin { sheet: p[2], row: le16(p, 0), column: p[3] }) {
        Ok((f, _)) => text_piece("="@) + f,
        Err(_) => number_pieces(cached_result(p)),
    }
}

/// FORMULACELL: the cached result in bytes 4 to 13, the formula tokens from
/// byte 14.
pub open spec fn formula_cell(m: ModelView, p: Seq<u8>) -> Result<ModelView, LotusErrorView> {
    if p.len() < 4 {
        Err(short_cell(p))
    } else {
        match ensured(m, p[2]) {
            Err(e) => Err(e),
            Ok(m1) => if p.len() < 14 {
                Err(LotusErrorView::IO("FORMULACELL too short"@))
            } else {
                Ok(with_input(m1, p[2] as int, le16(p, 0), p[3], formula_input(p)))
            },
        }
    }
}

fn handle_formula_cell(model: &mut Model, payload: &[u8]) -> (r: Result<(), LotusError>)
    ensures
        match formula_cell(old(model)@, payload@) {
            Ok(m) => r is Ok && final(model)@ == m,
            Err(e) => r matches Err(x) && x@ == e,
        },
        r is Err ==> final(model)@ == cell_failed_state(old(model)@, payload@),
{
    let (tab, row, col) = read_address(payload)?;
    let sheet = ensure_sheet(model, tab)?;
    if payload.len() < 14 {
        return Err(LotusError::IO(String::from_str("FORMULACELL too short")));
    }
    let tokens = &payload[14..payload.len()];
    assert(tokens@ == payload@.skip(14));
    let origin = FormulaOrigin { sheet: tab, row, column: col };
    let cached = Number::Extended(
        [
            payload[4],
            payload[5],
            payload[6],
            payload[7],
            payload[8],
            payload[9],
            payload[10],
            payload[11],
            payload[12],
            payload[13],
        ],
    );
    assert(cached == cached_result(payload@));
    match decode_formula(tokens, origin) {
        Ok((f, _)) => {
            let mut input = InputText::from_str("=");
            input.append(f);
            set_input(model, sheet, row, col, input);
        },
        Err(_) => {
            set_number(model, sheet, row, col, cached);
        },
    }
    Ok(())
}

/// A formula cell's input is `=` followed by its formula decoded as seen
/// from the cell itself: the origin is the cell's own tab byte (byte 2),
/// its row (bytes 0-1) and its column (byte 3). Where the formula cannot be
/// decoded, the cached result stands instead.
pub proof fn law_formula_cell_is_decoded_from_its_own_cell(m: ModelView, p: Seq<u8>)
    requires
        p.len() >= 14,
    ensures
        ensured(m, p[2]) matches Ok(m1) ==> formula_cell(m, p) == Ok::<ModelView, LotusErrorView>(
            with_input(
                m1,
                p[2] as int,
                le16(p, 0),
                p[3],
                match decoded_formula(p.skip(14), FormulaOrigin { row: le16(p, 0), column: p[3], sheet: p[2] }) {
                    Ok((f, _)) => seq![PieceView::Text("="@)] + f,
                    Err(_) => number_pieces(cached_result(p)),
                },
            ),
        ),
{
}

/// A formula cell whose formula is one cell reference to its own sheet
/// (the token's tab byte equals the cell's tab byte) imports as `=` and the
/// reference with no sheet marker, on whichever sheet the cell stands: `$`
/// before the column letters when bit 0 of `rel` is clear, `$` before the
/// row number when bit 1 is clear.
pub proof fn law_own_sheet_reference_has_no_sheet_marker(m: ModelView, p: Seq<u8>)
    requires
        p.len() == 21,
        p[14] == 1,
        p[18] == p[2],
        p[20] == 3,
    ensures
        ensured(m, p[2]) matches Ok(m1) ==> formula_cell(m, p) == Ok::<ModelView, LotusErrorView>(
            with_input(
                m1,
                p[2] as int,
                le16(p, 0),
                p[3],
                seq![
                    PieceView::Text("="@),
                    PieceView::Text(
                        (if p[15] % 2 == 0 {
                            "$"@
                        } else {
                            Seq::<char>::empty()
                        }) + column_letters(p[19] as nat) + (if (p[15] / 2) % 2 == 0 {
                            "$"@
                        } else {
                            Seq::<char>::empty()
                        }) + decimal(le16(p, 16) as nat + 1),
                    ),
                ],
            ),
        ),
{
    let o = FormulaOrigin { sheet: p[2], row: le16(p, 0), column: p[3] };
    let row = le16(p, 16);
    assert(row as int == p[16] + 256 * p[17]);
    assert(p.skip(14) =~= seq![1u8, p[15], (row % 256) as u8, (row / 256) as u8, p[18], p[19], 3u8]);
    law_cell_reference_text(p[15], row, p[18], p[19], o);
    law_formula_cell_is_decoded_from_its_own_cell(m, p);
    let d = if p[15] % 2 == 0 {
        "$"@
    } else {
        Seq::<char>::empty()
    };
    let e = if (p[15] / 2) % 2 == 0 {
        "$"@
    } else {
        Seq::<char>::empty()
    };
    let t = d + column_letters(p[19] as nat) + e + decimal(row as nat + 1);
    assert(Seq::<char>::empty() + d + column_letters(p[19] as nat) + e + decimal(row as nat + 1) =~= t);
    assert(seq![PieceView::Text("="@)] + seq![PieceView::Text(t)] =~= seq![PieceView::Text("="@), PieceView::Text(t)]);
}

// ---------------------------------------------------------------------------
// Columns, names and rows
// ---------------------------------------------------------------------------

/// The workbook after the entry of 1-based `column` of sheet `sheet` is
/// updated as [`columns_with`] says; unchanged for a column past the last.
pub open spec fn with_column(m: ModelView, sheet: int, column: int, width: Option<u8>, hidden: Option<bool>) -> ModelView {
    if 1 <= column <= LAST_COLUMN {
        ModelView {
            sheets: m.sheets.update(
                sheet,
                SheetView {
                    columns: columns_with(m.sheets[sheet].columns, column as i32, width, hidden),
                    ..m.sheets[sheet]
                },
            ),
            ..m
        }
    } else {
        m
    }
}

/// Column widths from the `(column, width)` byte pairs from `i` on; a width
/// of 0 leaves its column as it is.
pub open spec fn widths_from(m: ModelView, sheet: int, p: Seq<u8>, i: nat) -> ModelView
    decreases p.len() - i,
{
    if i + 1 >= p.len() {
        m
    } else {
        widths_from(
            if p[i + 1int] > 0 {
                with_column(m, sheet, p[i as int] + 1, Some(p[i + 1int]), None)
            } else {
                m
            },
            sheet,
            p,
            i + 2,
        )
    }
}

/// COLUMNWIDTH: sheet, window, two padding bytes, then `(column, width)`
/// pairs. Only window 0 applies.
pub open spec fn column_width_record(m: ModelView, p: Seq<u8>) -> Result<ModelView, LotusErrorView> {
    if p.len() < 4 || p[1] != 0 {
        Ok(m)
    } else {
        match ensured(m, p[0]) {
            Err(e) => Err(e),
            Ok(m1) => Ok(widths_from(m1, p[0] as int, p, 4)),
        }
    }
}

fn handle_column_width(model: &mut Model, payload: &[u8]) -> (r: Result<(), LotusError>)
    ensures
        match column_width_record(old(model)@, payload@) {
            Ok(m) => r is Ok && final(model)@ == m,
            Err(e) => r matches Err(x) && x@ == e,
        },
        r is Err ==> final(model)@ == ensured_state(old(model)@, payload@[0]),
{
    if payload.len() < 4 || payload[1] != 0 {
        return Ok(());
    }
    let sheet = ensure_sheet(model, payload[0])?;
    let ghost target = widths_from(model@, sheet as int, payload@, 4);
    let mut i: usize = 4;
    while i < payload.len() - 1
        invariant
            4 <= i <= payload@.len(),
            (sheet as int) < model@.sheets.len(),
            widths_from(model@, sheet as int, payload@, i as nat) == target,
        decreases payload@.len() - i,
    {
        let col = payload[i];
        let spaces = payload[i + 1];
        if spaces > 0 {
            let _ = model.set_column_width(sheet, col as i32 + 1, spaces);
        }
        i += 2;
    }
    Ok(())
}

/// Columns hidden by the column bytes from `i` on.
pub open spec fn hidden_from(m: ModelView, sheet: int, p: Seq<u8>, i: nat) -> ModelView
    decreases p.len() - i,
{
    if i >= p.len() {
        m
    } else {
        hidden_from(with_column(m, sheet, p[i as int] + 1, None, Some(true)), sheet, p, i + 1)
    }
}

/// HIDDENCOLUMN: sheet, window, two padding bytes, then the hidden columns.
/// Only window 0 applies.
pub open spec fn hidden_column_record(m: ModelView, p: Seq<u8>) -> Result<ModelView, LotusErrorView> {
    if p.len() < 4 || p[1] != 0 {
        Ok(m)
    } else {
        match ensured(m, p[0]) {
            Err(e) => Err(e),
            Ok(m1) => Ok(hidden_from(m1, p[0] as int, p, 4)),
        }
    }
}

fn handle_hidden_column(model: &mut Model, payload: &[u8]) -> (r: Result<(), LotusError>)
    ensures
        match hidden_column_record(old(model)@, payload@) {
            Ok(m) => r is Ok && final(model)@ == m,
            Err(e) => r matches Err(x) && x@ == e,
        },
        r is Err ==> final(model)@ == ensured_state(old(model)@, payload@[0]),
{
    if payload.len() < 4 || payload[1] != 0 {
        return Ok(());
    }
    let sheet = ensure_sheet(model, payload[0])?;
    let ghost target = hidden_from(model@, sheet as int, payload@, 4);
    let mut i: usize = 4;
    while i < payload.len()
        invariant
            4 <= i,
            (sheet as int) < model@.sheets.len(),
            hidden_from(model@, sheet as int, payload@, i as nat) == target,
        decreases payload@.len() - i,
    {
        let _ = model.set_column_hidden(sheet, payload[i] as i32 + 1, true);
        i += 1;
    }
    Ok(())
}

/// A character that may stand unquoted in a sheet reference.
pub open spec fn plain_name_char(c: char) -> bool {
    alphanumeric(c) || c == '_' || c == '.'
}

/// `s` with each `'` doubled.
pub open spec fn doubled_apostrophes(s: Seq<char>) -> Seq<char>
    decreases s.len(),
{
    if s.len() == 0 {
        Seq::empty()
    } else {
        doubled_apostrophes(s.drop_last()) + if s.last() == '\'' {
            seq!['\'', '\'']
        } else {
            seq![s.last()]
        }
    }
}

/// A sheet name as it is written in a reference: as it is when it has only
/// letters, digits, `_` and `.`, else in single quotes with inner quotes
/// doubled.
pub open spec fn quoted_sheet(name: Seq<char>) -> Seq<char> {
    if forall|i: int| 0 <= i < name.len() ==> plain_name_char(#[trigger] name[i]) {
        name
    } else {
        seq!['\''] + doubled_apostrophes(name) + seq!['\'']
    }
}

/// [`plain_name_char`] of an ASCII character.
pub open spec fn plain_ascii_char(c: char) -> bool {
    is_ascii_alphanumeric(c) || c == '_' || c == '.'
}

/// [`quoted_sheet`] of an ASCII name.
pub open spec fn quoted_ascii_sheet(name: Seq<char>) -> Seq<char> {
    if forall|i: int| 0 <= i < name.len() ==> plain_ascii_char(#[trigger] name[i]) {
        name
    } else {
        seq!['\''] + doubled_apostrophes(name) + seq!['\'']
    }
}

fn quote_sheet(name: &str) -> (out: String)
    ensures
        out@ == quoted_sheet(name@),
        all_ascii(name@) ==> out@ == quoted_ascii_sheet(name@),
{
    let n = name.unicode_len();
    let mut plain = true;
    let mut i: usize = 0;
    while i < n
        invariant
            n == name@.len(),
            i <= n,
            plain == forall|j: int| 0 <= j < i ==> plain_name_char(#[trigger] name@[j]),
            forall|j: int| 0 <= j < i && (name@[j] as u32) < 128 ==> plain_name_char(#[trigger] name@[j])
                == plain_ascii_char(name@[j]),
        decreases n - i,
    {
        let c = name.get_char(i);
        if !(char_is_alphanumeric(c) || c == '_' || c == '.') {
            plain = false;
        }
        i += 1;
    }
    proof {
        if all_ascii(name@) {
            assert forall|j: int| 0 <= j < name@.len() implies plain_name_char(#[trigger] name@[j])
                == plain_ascii_char(name@[j]) by {
                assert((name@[j] as u32) < 128);
            }
            assert(quoted_sheet(name@) == quoted_ascii_sheet(name@));
        }
    }
    if plain {
        return String::from_str(name);
    }
    let mut out = String::new();
    push_char(&mut out, '\'');
    let mut k: usize = 0;
    while k < n
        invariant
            n == name@.len(),
            k <= n,
            out@ == seq!['\''] + doubled_apostrophes(name@.take(k as int)),
        decreases n - k,
    {
        let c = name.get_char(k);
        if c == '\'' {
            push_char(&mut out, '\'');
            push_char(&mut out, '\'');
        } else {
            push_char(&mut out, c);
        }
        k += 1;
        assert(name@.take(k as int).drop_last() =~= name@.take(k - 1));
    }
    assert(name@.take(n as int) =~= name@);
    push_char(&mut out, '\'');
    out
}

/// An absolute cell address, `$` column letters `$` row number, of the
/// zero-based `col` and `row`.
pub open spec fn cell_address(col: u8, row: u16) -> Seq<char> {
    "$"@ + column_letters(col as nat) + "$"@ + decimal(row as nat + 1)
}

fn push_cell_address(s: &mut String, col: u8, row: u16)
    ensures
        final(s)@ == old(s)@ + cell_address(col, row),
{
    s.append("$");
    push_column_letters(s, col as u32);
    s.append("$");
    push_decimal(s, row as u128 + 1);
}

/// The formula of a named range: the quoted sheet name, `!`, and the cell
/// address, or the two corner addresses joined by `:`.
pub open spec fn range_formula(sheet: Seq<char>, col_s: u8, row_s: u16, col_e: u8, row_e: u16) -> Seq<char> {
    if row_s == row_e && col_s == col_e {
        quoted_sheet(sheet) + "!"@ + cell_address(col_s, row_s)
    } else {
        quoted_sheet(sheet) + "!"@ + cell_address(col_s, row_s) + ":"@ + cell_address(col_e, row_e)
    }
}

/// The workbook with the defined name `name` added, unless it is defined
/// already.
pub open spec fn with_name(m: ModelView, name: Seq<char>, formula: Seq<char>) -> ModelView {
    if defined(m.names, name) {
        m
    } else {
        ModelView { names: m.names.push((name, formula)), ..m }
    }
}

/// USERRANGE: a type word, a 16-byte NUL-padded name, then the start and
/// end cells (`u16` row, sheet byte, column byte). Ranges over more than one
/// sheet are skipped.
pub open spec fn user_range(m: ModelView, p: Seq<u8>) -> Result<ModelView, LotusErrorView> {
    if p.len() < 18 || nul_terminated_text(p.subrange(2, 18)).len() == 0 || p.len() < 26 || p[20]
        != p[24] {
        Ok(m)
    } else {
        match ensured(m, p[20]) {
            Err(e) => Err(e),
            Ok(m1) => Ok(
                with_name(
                    m1,
                    sanitized_name(nul_terminated_text(p.subrange(2, 18))),
                    range_formula(m1.sheets[p[20] as int].name, p[21], le16(p, 18), p[25], le16(p, 22)),
                ),
            ),
        }
    }
}

fn handle_user_range(model: &mut Model, payload: &[u8]) -> (r: Result<(), LotusError>)
    ensures
        match user_range(old(model)@, payload@) {
            Ok(m) => r is Ok && final(model)@ == m,
            Err(e) => r matches Err(x) && x@ == e,
        },
        r is Err ==> final(model)@ == ensured_state(old(model)@, payload@[20]),
{
    if payload.len() < 18 {
        return Ok(());
    }
    let raw_name = &payload[2..18];
    let name_text = nul_terminated_string(raw_name);
    if name_text.unicode_len() == 0 {
        return Ok(());
    }
    let name = sanitize_name(name_text.as_str());
    if payload.len() < 26 {
        return Ok(());
    }
    let row_s = u16_le(payload, 18);
    let tab_s = payload[20];
    let col_s = payload[21];
    let row_e = u16_le(payload, 22);
    let tab_e = payload[24];
    let col_e = payload[25];
    if tab_s != tab_e {
        return Ok(());
    }
    let sheet = ensure_sheet(model, tab_s)?;
    let sheet_name = match model.sheet_name(sheet as usize) {
        Some(s) => s,
        None => String::new(),
    };
    let mut formula = quote_sheet(sheet_name.as_str());
    formula.append("!");
    push_cell_address(&mut formula, col_s, row_s);
    if !(row_s == row_e && col_s == col_e) {
        formula.append(":");
        push_cell_address(&mut formula, col_e, row_e);
    }
    let _ = model.new_defined_name(name.as_str(), formula.as_str());
    Ok(())
}

/// A sheet-name character: the characters Excel refuses become `_`.
pub open spec fn sheet_name_char(c: char) -> char {
    if forbidden_sheet_char(c) {
        '_'
    } else {
        c
    }
}

/// A sheet name made from `name`: refused characters become `_`, the name
/// is cut to 31 characters, and the empty name becomes `Sheet`.
pub open spec fn sanitized_sheet_name(name: Seq<char>) -> Seq<char> {
    if name.len() == 0 {
        "Sheet"@
    } else if name.len() > 31 {
        name.take(31).map_values(|c: char| sheet_name_char(c))
    } else {
        name.map_values(|c: char| sheet_name_char(c))
    }
}

fn sanitize_sheet_name(name: &str) -> (out: String)
    ensures
        out@ == sanitized_sheet_name(name@),
{
    let n = name.unicode_len();
    if n == 0 {
        return String::from_str("Sheet");
    }
    let limit = if n > 31 {
        31
    } else {
        n
    };
    let mut out = String::new();
    let mut i: usize = 0;
    while i < limit
        invariant
            n == name@.len(),
            limit <= n,
            i <= limit,
            out@ == name@.take(i as int).map_values(|c: char| sheet_name_char(c)),
        decreases limit - i,
    {
        let c = name.get_char(i);
        if c == '\\' || c == '/' || c == '?' || c == '*' || c == '[' || c == ']' || c == ':' {
            push_char(&mut out, '_');
        } else {
            push_char(&mut out, c);
        }
        i += 1;
        assert(name@.take(i as int).map_values(|c: char| sheet_name_char(c)) =~= name@.take(
            (i - 1) as int,
        ).map_values(|c: char| sheet_name_char(c)).push(sheet_name_char(c)));
    }
    if n <= 31 {
        assert(name@.take(n as int) =~= name@);
    }
    out
}

/// The workbook after the height of 1-based `row` of sheet `sheet` is set;
/// unchanged for a row past the last.
pub open spec fn with_row(m: ModelView, sheet: int, row: int, height: u16) -> ModelView {
    if 1 <= row <= LAST_ROW {
        ModelView {
            sheets: m.sheets.update(
                sheet,
                SheetView { rows: rows_with(m.sheets[sheet].rows, row as i32, height), ..m.sheets[sheet] },
            ),
            ..m
        }
    } else {
        m
    }
}

/// Row heights from the 8-byte entries from `i` on: `u16` row, `u16` height
/// (low 12 bits), two bytes, flags, one byte. Only rows with the fixed-height
/// flag (bit 1) and a height above 0 are set.
pub open spec fn heights_from(m: ModelView, sheet: int, b: Seq<u8>, i: nat) -> ModelView
    decreases b.len() - i,
{
    if i + 8 > b.len() {
        m
    } else {
        heights_from(
            if b[i + 6int] & 0x02 != 0 && le16(b, i + 2int) & 0x0FFF > 0 {
                with_row(m, sheet, le16(b, i as int) + 1, le16(b, i + 2int) & 0x0FFF)
            } else {
                m
            },
            sheet,
            b,
            i + 8,
        )
    }
}

/// RowPresentation (sub-type 2007 of 0x1B), after the sub-type: sheet, a
/// padding byte, then the row entries of [`heights_from`].
pub open spec fn row_presentation(m: ModelView, b: Seq<u8>) -> Result<ModelView, LotusErrorView> {
    if b.len() < 2 {
        Ok(m)
    } else {
        match ensured(m, b[0]) {
            Err(e) => Err(e),
            Ok(m1) => Ok(heights_from(m1, b[0] as int, b, 2)),
        }
    }
}

fn handle_row_presentation(model: &mut Model, body: &[u8]) -> (r: Result<(), LotusError>)
    ensures
        match row_presentation(old(model)@, body@) {
            Ok(m) => r is Ok && final(model)@ == m,
            Err(e) => r matches Err(x) && x@ == e,
        },
        r is Err ==> final(model)@ == ensured_state(old(model)@, body@[0]),
{
    if body.len() < 2 {
        return Ok(());
    }
    let sheet = ensure_sheet(model, body[0])?;
    let ghost target = heights_from(model@, sheet as int, body@, 2);
    let mut i: usize = 2;
    while body.len() >= 8 && i <= body.len() - 8
        invariant
            2 <= i <= body@.len(),
            (sheet as int) < model@.sheets.len(),
            heights_from(model@, sheet as int, body@, i as nat) == target,
        decreases body@.len() - i,
    {
        let row = u16_le(body, i);
        let raw_height = u16_le(body, i + 2);
        let flags = body[i + 6];
        i += 8;
        if (flags & 0x02) != 0 && (raw_height & 0x0FFF) > 0 {
            let _ = model.set_row_height(sheet, row as i32 + 1, raw_height & 0x0FFF);
        }
    }
    Ok(())
}

/// Extended attribute record (0x1B): a NamedSheet (sub-type 14000: sheet
/// word, NUL-terminated name) renames a sheet, a RowPresentation sets row
/// heights, and a CreatePattern body adds a pattern to the style cache.
pub open spec fn extended_attr(m: ModelView, cache: StyleCacheView, p: Seq<u8>) -> Result<
    (ModelView, StyleCacheView),
    LotusErrorView,
> {
    if p.len() < 2 {
        Ok((m, cache))
    } else if le16(p, 0) == SUBTYPE_NAMED_SHEET {
        if p.len() < 4 || nul_terminated_text(p.skip(4)).len() == 0 {
            Ok((m, cache))
        } else {
            match ensured(m, p[2]) {
                Err(e) => Err(e),
                Ok(m1) => Ok(
                    (renamed(m1, p[2] as int, sanitized_sheet_name(nul_terminated_text(p.skip(4)))), cache),
                ),
            }
        }
    } else if le16(p, 0) == SUBTYPE_ROW_PRESENTATION {
        match row_presentation(m, p.skip(2)) {
            Err(e) => Err(e),
            Ok(m1) => Ok((m1, cache)),
        }
    } else {
        match pattern_of(p) {
            Some((id, entry)) => Ok((m, StyleCacheView { patterns: cache.patterns.insert(id, entry), ..cache })),
            None => Ok((m, cache)),
        }
    }
}

fn handle_extended_attr(model: &mut Model, payload: &[u8], cache: &mut StyleCache) -> (r: Result<
    (),
    LotusError,
>)
    ensures
        match extended_attr(old(model)@, old(cache)@, payload@) {
            Ok((m, c)) => r is Ok && final(model)@ == m && final(cache)@ == c,
            Err(e) => r matches Err(x) && x@ == e,
        },
        r is Err ==> final(model)@ == ensured_state(old(model)@, payload@[2]),
{
    if payload.len() < 2 {
        return Ok(());
    }
    let subtype = u16_le(payload, 0);
    if subtype == SUBTYPE_NAMED_SHEET {
        if payload.len() < 4 {
            return Ok(());
        }
        let sheet_num = payload[2];
        let raw = &payload[4..payload.len()];
        assert(raw@ == payload@.skip(4));
        let name = nul_terminated_string(raw);
        if name.unicode_len() == 0 {
            return Ok(());
        }
        let sheet = ensure_sheet(model, sheet_num)?;
        let safe = sanitize_sheet_name(name.as_str());
        let _ = model.rename_sheet_by_index(sheet, safe.as_str());
        Ok(())
    } else if subtype == SUBTYPE_ROW_PRESENTATION {
        let body = &payload[2..payload.len()];
        assert(body@ == payload@.skip(2));
        handle_row_presentation(model, body)
    } else {
        match decode_pattern(payload) {
            Some((pattern_id, entry)) => {
                cache.insert_pattern(pattern_id, entry);
            },
            None => {},
        }
        Ok(())
    }
}

// ---------------------------------------------------------------------------
// Styles
// ---------------------------------------------------------------------------

/// The workbook after cell `(row, column)` (1-based) of sheet `sheet` takes
/// `style`; unchanged for a cell past the last row or column.
pub open spec fn with_style(m: ModelView, sheet: int, row: int, column: int, style: StyleView) -> ModelView {
    if 1 <= row <= LAST_ROW && 1 <= column <= LAST_COLUMN {
        ModelView {
            sheets: m.sheets.update(
                sheet,
                SheetView {
                    cells: cells_with_style(m.sheets[sheet].cells, row as i32, column as i32, style),
                    ..m.sheets[sheet]
                },
            ),
            ..m
        }
    } else {
        m
    }
}

/// The workbook after the zero-based columns `c..=last` of `row` take `style`.
pub open spec fn styled_cells(m: ModelView, sheet: int, row: int, c: int, last: int, style: StyleView) -> ModelView
    decreases last + 1 - c,
{
    if c > last {
        m
    } else {
        styled_cells(with_style(m, sheet, row, c + 1, style), sheet, row, c + 1, last, style)
    }
}

/// Whether an attribute carries any styling (see [`LotAttr::has_styles`]).
pub open spec fn attr_has_styles(a: LotAttr) -> bool {
    a.font_index != 0 || a.line_style != 0 || a.font_color & 0x07 != 0 || a.back_byte & 0xBF != 0
}

/// The attribute runs of a row record from byte `i` on, the run at `i`
/// starting at zero-based column `col`: four attribute bytes and a repeat
/// count `n`, styling `n + 1` columns.
pub open spec fn row_runs(
    m: ModelView,
    sheet: int,
    row: int,
    p: Seq<u8>,
    i: nat,
    col: int,
    cache: StyleCacheView,
    base: StyleView,
) -> ModelView
    decreases p.len() - i,
{
    if i + 5 > p.len() {
        m
    } else {
        let attr = LotAttr {
            font_index: p[i as int],
            line_style: p[i + 1int],
            font_color: p[i + 2int],
            back_byte: p[i + 3int],
        };
        row_runs(
            if attr_has_styles(attr) {
                styled_cells(m, sheet, row, col, col + p[i + 4int], built_style(cache, attr, None, base))
            } else {
                m
            },
            sheet,
            row,
            p,
            i + 5,
            col + p[i + 4int] + 1,
            cache,
            base,
        )
    }
}

/// Row record (0xC5), applied to the first sheet: `u16` row, `u16` height
/// (low 12 bits; 0 leaves the row as it is), then attribute runs built on
/// the style of the row's first cell.
pub open spec fn row_record(m: ModelView, p: Seq<u8>, cache: StyleCacheView) -> Result<ModelView, LotusErrorView> {
    if p.len() < 4 {
        Ok(m)
    } else {
        match ensured(m, 0) {
            Err(e) => Err(e),
            Ok(m1) => {
                let row = le16(p, 0) + 1;
                let m2 = if le16(p, 2) & 0x0FFF != 0 {
                    with_row(m1, 0, row, le16(p, 2) & 0x0FFF)
                } else {
                    m1
                };
                Ok(row_runs(m2, 0, row, p, 4, 0, cache, style_at(m2.sheets[0].cells, row as i32, 1)))
            },
        }
    }
}

fn handle_row_record(model: &mut Model, payload: &[u8], cache: &StyleCache) -> (r: Result<(), LotusError>)
    requires
        payload@.len() <= 0xFFFF,
    ensures
        match row_record(old(model)@, payload@, cache@) {
            Ok(m) => r is Ok && final(model)@ == m,
            Err(e) => r matches Err(x) && x@ == e,
        },
        r is Err ==> final(model)@ == ensured_state(old(model)@, 0),
{
    if payload.len() < 4 {
        return Ok(());
    }
    let sheet = ensure_sheet(model, 0)?;
    let row = u16_le(payload, 0);
    let raw_height = u16_le(payload, 2) & 0x0FFF;
    if raw_height != 0 {
        let _ = model.set_row_height(sheet, row as i32 + 1, raw_height);
    }
    let base = match model.get_style_for_cell(sheet, row as i32 + 1, 1) {
        Ok(s) => s,
        Err(_) => crate::style::Style::default_style(),
    };
    let ghost row1 = row as int + 1;
    let ghost target = row_runs(model@, 0, row1, payload@, 4, 0, cache@, base@);
    let mut i: usize = 4;
    let mut col: u32 = 0;
    while payload.len() >= 5 && i <= payload.len() - 5
        invariant
            4 <= i <= payload@.len(),
            payload@.len() <= 0xFFFF,
            col <= 52 * i,
            sheet == 0,
            0 < model@.sheets.len(),
            row1 == row as int + 1,
            row_runs(model@, 0, row1, payload@, i as nat, col as int, cache@, base@) == target,
        decreases payload@.len() - i,
    {
        let attr = LotAttr::from_bytes([payload[i], payload[i + 1], payload[i + 2], payload[i + 3]]);
        let repeats = payload[i + 4];
        i += 5;
        if attr.has_styles() {
            let style = build_style(cache, &attr, None, &base);
            let last: u32 = col + repeats as u32;
            let mut c: u32 = col;
            let ghost goal = styled_cells(model@, 0, row1, col as int, last as int, style@);
            while c <= last
                invariant
                    col <= c <= last + 1,
                    last <= 52 * 0xFFFF + 255,
                    0 < model@.sheets.len(),
                    row1 == row as int + 1,
                    styled_cells(model@, 0, row1, c as int, last as int, style@) == goal,
                decreases last + 1 - c,
            {
                let _ = crate::style::apply_style_to_cell(model, 0, row as u32 + 1, c + 1, &style);
                c += 1;
            }
        }
        col += repeats as u32 + 1;
    }
    Ok(())
}

/// Font slots after a Font Face record (see [`decode_font_face`]).
pub open spec fn font_face_fonts(fonts: Seq<FontEntryView>, p: Seq<u8>) -> Seq<FontEntryView> {
    if p.len() == 0 {
        fonts
    } else {
        update_slot(
            fonts,
            p[0] as int,
            FontEntryView { name: Some(nul_terminated_text(p.skip(1))), ..fonts[p[0] as int] },
        )
    }
}

// ---------------------------------------------------------------------------
// The file
// ---------------------------------------------------------------------------

/// An empty font slot.
pub open spec fn empty_font() -> FontEntryView {
    FontEntryView { name: None, size_twentieths: None, type_flags: 0 }
}

/// The style cache at the start of a file: empty font slots, no patterns.
pub open spec fn initial_cache() -> StyleCacheView {
    StyleCacheView {
        fonts: Seq::new(FONT_TABLE_SIZE as nat, |i: int| empty_font()),
        patterns: Map::empty(),
    }
}

/// A workbook-only effect paired with an unchanged style cache.
pub open spec fn with_cache(r: Result<ModelView, LotusErrorView>, cache: StyleCacheView) -> Result<
    (ModelView, StyleCacheView),
    LotusErrorView,
> {
    match r {
        Ok(m) => Ok((m, cache)),
        Err(e) => Err(e),
    }
}

/// The workbook a cell record that fails leaves: unchanged when the record
/// is too short for its address, else as making sure of its sheet left it.
pub open spec fn cell_failed_state(m: ModelView, p: Seq<u8>) -> ModelView {
    if p.len() < 4 {
        m
    } else {
        ensured_state(m, p[2])
    }
}

/// The workbook a record with opcode `op` and payload `p` leaves when it
/// fails: only making sure of a sheet changes the workbook before a record
/// fails.
pub open spec fn failed_state(m: ModelView, op: u16, p: Seq<u8>) -> ModelView {
    if op == OP_COLUMNWIDTH || op == OP_HIDDENCOLUMN {
        ensured_state(m, p[0])
    } else if op == OP_USERRANGE {
        ensured_state(m, p[20])
    } else if op == OP_EXTENDED_ATTR {
        ensured_state(m, p[2])
    } else if op == OP_ROW_RECORD {
        ensured_state(m, 0)
    } else if op == OP_ERRCELL || op == OP_NACELL || op == OP_LABELCELL || op == OP_NUMBERCELL || op
        == OP_SMALLNUMCELL || op == OP_FORMULACELL {
        cell_failed_state(m, p)
    } else {
        m
    }
}

/// The workbook and style cache after a record with opcode `op` and payload
/// `p`. Records of other opcodes change nothing.
pub open spec fn apply_record(m: ModelView, cache: StyleCacheView, op: u16, p: Seq<u8>) -> Result<
    (ModelView, StyleCacheView),
    LotusErrorView,
> {
    if op == OP_COLUMNWIDTH {
        with_cache(column_width_record(m, p), cache)
    } else if op == OP_HIDDENCOLUMN {
        with_cache(hidden_column_record(m, p), cache)
    } else if op == OP_USERRANGE {
        with_cache(user_range(m, p), cache)
    } else if op == OP_ERRCELL {
        with_cache(simple_cell(m, p, "#REF!"@), cache)
    } else if op == OP_NACELL {
        with_cache(simple_cell(m, p, "#N/A"@), cache)
    } else if op == OP_LABELCELL {
        with_cache(label_cell(m, p), cache)
    } else if op == OP_NUMBERCELL {
        with_cache(number_cell(m, p), cache)
    } else if op == OP_SMALLNUMCELL {
        with_cache(small_num_cell(m, p), cache)
    } else if op == OP_FORMULACELL {
        with_cache(formula_cell(m, p), cache)
    } else if op == OP_EXTENDED_ATTR {
        extended_attr(m, cache, p)
    } else if op == OP_FONT_FACE {
        Ok((m, StyleCacheView { fonts: font_face_fonts(cache.fonts, p), ..cache }))
    } else if op == OP_FONT_TYPE {
        Ok((m, StyleCacheView { fonts: with_font_types(cache.fonts, p), ..cache }))
    } else if op == OP_FONT_SIZE {
        Ok((m, StyleCacheView { fonts: with_font_sizes(cache.fonts, p), ..cache }))
    } else if op == OP_ROW_RECORD {
        with_cache(row_record(m, p, cache), cache)
    } else {
        Ok((m, cache))
    }
}

/// The workbook after the records from `pos` on: reading stops at the end
/// of the buffer or at EOF, and fails on a truncated record, on a password
/// record (encrypted files) and on a record that fails.
pub open spec fn import_records(buf: Seq<u8>, pos: nat, m: ModelView, cache: StyleCacheView) -> Result<
    ModelView,
    LotusErrorView,
>
    decreases buf.len() - pos,
{
    match record_at(buf, pos) {
        None => Ok(m),
        Some(Err(e)) => Err(e),
        Some(Ok((op, s, e))) => if op == OP_EOF {
            Ok(m)
        } else if op == OP_PASSWORD {
            Err(LotusErrorView::NotWk3("encrypted WK3 files are not supported"@))
        } else {
            match apply_record(m, cache, op, buf.subrange(s as int, e as int)) {
                Err(x) => Err(x),
                Ok((m2, c2)) => import_records(buf, e, m2, c2),
            }
        },
    }
}

/// The workbook that reading the records from `pos` on leaves, whether
/// reading ends well or stops at a record that fails (see
/// [`import_records`] and [`failed_state`]).
pub open spec fn import_state(buf: Seq<u8>, pos: nat, m: ModelView, cache: StyleCacheView) -> ModelView
    decreases buf.len() - pos,
{
    match record_at(buf, pos) {
        None => m,
        Some(Err(_)) => m,
        Some(Ok((op, s, e))) => if op == OP_EOF || op == OP_PASSWORD {
            m
        } else {
            match apply_record(m, cache, op, buf.subrange(s as int, e as int)) {
                Err(_) => failed_state(m, op, buf.subrange(s as int, e as int)),
                Ok((m2, c2)) => import_state(buf, e, m2, c2),
            }
        },
    }
}

/// The workbook that importing the WK3 file `buf` into `m` leaves: `m` when
/// the header is not a WK3 BOF, else what reading the records after it
/// leaves, also when a record fails.
pub open spec fn imported_state(buf: Seq<u8>, m: ModelView) -> ModelView {
    match record_at(buf, 0) {
        Some(Ok((_, _, e))) => if wk3_header(buf) {
            import_state(buf, e, m, initial_cache())
        } else {
            m
        },
        _ => m,
    }
}

/// Whether `buf` starts with a complete BOF record of at least 4 bytes with
/// file code 0x1000 and sub-code 0x0004.
pub open spec fn wk3_header(buf: Seq<u8>) -> bool {
    match record_at(buf, 0) {
        Some(Ok((op, s, e))) => op == OP_BOF && e >= s + 4 && le16(buf, s as int) == 0x1000 && le16(
            buf,
            s + 2int,
        ) == 0x0004,
        _ => false,
    }
}

/// The workbook `m` after importing the WK3 file `buf`: the first record
/// must be a BOF of at least 4 bytes with file code 0x1000 and sub-code
/// 0x0004; the records after it are applied as [`import_records`] says.
pub open spec fn imported(buf: Seq<u8>, m: ModelView) -> Result<ModelView, LotusErrorView> {
    match record_at(buf, 0) {
        None => Err(LotusErrorView::NotWk3("empty file"@)),
        Some(Err(e)) => Err(e),
        Some(Ok((op, s, e))) => if op != OP_BOF || e < s + 4 {
            Err(LotusErrorView::NotWk3("expected BOF, got opcode 0x"@ + hex4(op)))
        } else if le16(buf, s as int) != 0x1000 || le16(buf, s + 2int) != 0x0004 {
            Err(
                LotusErrorView::NotWk3(
                    "file_code=0x"@ + hex4(le16(buf, s as int)) + " file_sub=0x"@ + hex4(
                        le16(buf, s + 2int),
                    ) + " (expected 0x1000/0x0004)"@,
                ),
            )
        } else {
            import_records(buf, e, m, initial_cache())
        },
    }
}

fn apply_record_exec(model: &mut Model, cache: &mut StyleCache, op: u16, payload: &[u8]) -> (r:
    Result<(), LotusError>)
    requires
        payload@.len() <= 0xFFFF,
    ensures
        match apply_record(old(model)@, old(cache)@, op, payload@) {
            Ok((m, c)) => r is Ok && final(model)@ == m && final(cache)@ == c,
            Err(e) => r matches Err(x) && x@ == e,
        },
        r is Err ==> final(model)@ == failed_state(old(model)@, op, payload@),
{
    if op == OP_COLUMNWIDTH {
        handle_column_width(model, payload)
    } else if op == OP_HIDDENCOLUMN {
        handle_hidden_column(model, payload)
    } else if op == OP_USERRANGE {
        handle_user_range(model, payload)
    } else if op == OP_ERRCELL {
        handle_simple_cell(model, payload, "#REF!")
    } else if op == OP_NACELL {
        handle_simple_cell(model, payload, "#N/A")
    } else if op == OP_LABELCELL {
        handle_label_cell(model, payload)
    } else if op == OP_NUMBERCELL {
        handle_number_cell(model, payload)
    } else if op == OP_SMALLNUMCELL {
        handle_small_num_cell(model, payload)
    } else if op == OP_FORMULACELL {
        handle_formula_cell(model, payload)
    } else if op == OP_EXTENDED_ATTR {
        handle_extended_attr(model, payload, cache)
    } else if op == OP_FONT_FACE {
        decode_font_face(payload, cache);
        Ok(())
    } else if op == OP_FONT_TYPE {
        decode_font_type(payload, cache);
        Ok(())
    } else if op == OP_FONT_SIZE {
        decode_font_size(payload, cache);
        Ok(())
    } else if op == OP_ROW_RECORD {
        handle_row_record(model, payload, cache)
    } else {
        Ok(())
    }
}

/// Reads the WK3 file `bytes` into `model` (see [`imported`]). On failure
/// the error is the one [`imported`] names, and the model is what
/// [`imported_state`] says: as it was when the header is not a WK3 BOF,
/// else holding the records applied before the one that failed (and what
/// that record did before failing).
pub fn load_into_model(bytes: &[u8], model: &mut Model) -> (r: Result<(), LotusError>)
    ensures
        match imported(bytes@, old(model)@) {
            Ok(m) => r is Ok && final(model)@ == m,
            Err(e) => r matches Err(x) && x@ == e,
        },
        !wk3_header(bytes@) ==> final(model)@ == old(model)@,
        final(model)@ == imported_state(bytes@, old(model)@),
{
    let mut reader = RecReader::new(bytes);
    let bof = match reader.next_record() {
        Err(e) => return Err(e),
        Ok(None) => return Err(LotusError::NotWk3(String::from_str("empty file"))),
        Ok(Some(rec)) => rec,
    };
    if bof.opcode != OP_BOF || bof.payload.len() < 4 {
        let mut m = String::from_str("expected BOF, got opcode 0x");
        push_hex4(&mut m, bof.opcode);
        return Err(LotusError::NotWk3(m));
    }
    let file_code = u16_le(bof.payload, 0);
    let file_sub = u16_le(bof.payload, 2);
    if file_code != 0x1000 || file_sub != 0x0004 {
        let mut m = String::from_str("file_code=0x");
        push_hex4(&mut m, file_code);
        m.append(" file_sub=0x");
        push_hex4(&mut m, file_sub);
        m.append(" (expected 0x1000/0x0004)");
        return Err(LotusError::NotWk3(m));
    }
    let mut cache = StyleCache::new();
    assert(cache@.fonts =~= initial_cache().fonts);
    let ghost target = imported(bytes@, old(model)@);
    assert(wk3_header(bytes@));
    loop
        invariant
            wk3_header(bytes@),
            reader.buf == bytes,
            reader.pos <= bytes@.len(),
            import_records(bytes@, reader.pos as nat, model@, cache@) == target,
            target == imported(bytes@, old(model)@),
            import_state(bytes@, reader.pos as nat, model@, cache@) == imported_state(bytes@, old(model)@),
        decreases bytes@.len() - reader.pos,
    {
        match read_record(&mut reader, model, &mut cache) {
            Ok(true) => {},
            Ok(false) => return Ok(()),
            Err(e) => return Err(e),
        }
    }
}

/// Applies the next record; `false` when reading is over (end of the buffer
/// or EOF).
fn read_record(reader: &mut RecReader, model: &mut Model, cache: &mut StyleCache) -> (r: Result<
    bool,
    LotusError,
>)
    requires
        old(reader).pos <= old(reader).buf@.len(),
    ensures
        final(reader).buf == old(reader).buf,
        final(reader).pos <= final(reader).buf@.len(),
        r matches Ok(true) ==> final(reader).pos > old(reader).pos && import_records(
            old(reader).buf@,
            final(reader).pos as nat,
            final(model)@,
            final(cache)@,
        ) == import_records(old(reader).buf@, old(reader).pos as nat, old(model)@, old(cache)@),
        r matches Ok(false) ==> import_records(
            old(reader).buf@,
            old(reader).pos as nat,
            old(model)@,
            old(cache)@,
        ) == Ok::<ModelView, LotusErrorView>(final(model)@),
        r matches Err(x) ==> import_records(
            old(reader).buf@,
            old(reader).pos as nat,
            old(model)@,
            old(cache)@,
        ) == Err::<ModelView, LotusErrorView>(x@),
        r is Err ==> final(model)@ == import_state(old(reader).buf@, old(reader).pos as nat, old(model)@, old(cache)@),
        r matches Ok(false) ==> final(model)@ == old(model)@ && import_state(
            old(reader).buf@,
            old(reader).pos as nat,
            old(model)@,
            old(cache)@,
        ) == old(model)@,
        r matches Ok(true) ==> import_state(final(reader).buf@, final(reader).pos as nat, final(model)@, final(cache)@)
            == import_state(old(reader).buf@, old(reader).pos as nat, old(model)@, old(cache)@),
{
    let rec = match reader.next_record() {
        Err(e) => return Err(e),
        Ok(None) => return Ok(false),
        Ok(Some(rec)) => rec,
    };
    if rec.opcode == OP_EOF {
        return Ok(false);
    }
    if rec.opcode == OP_PASSWORD {
        return Err(LotusError::NotWk3(String::from_str("encrypted WK3 files are not supported")));
    }
    apply_record_exec(model, cache, rec.opcode, rec.payload)?;
    Ok(true)
}

/// Loads a workbook named `name` from the bytes of a WK3 file: a new
/// workbook (see [`Model::new_empty`]) with the file imported into it.
pub fn load_from_wk3_bytes(bytes: &[u8], name: &str, locale: &str, tz: &str, language: &str) -> (r:
    Result<Model, LotusError>)
    ensures
        match imported(bytes@, new_model(name@, locale@, tz@, language@)) {
            Ok(m) => r matches Ok(model) && model@ == m,
            Err(e) => r matches Err(x) && x@ == e,
        },
{
    let mut model = Model::new_empty(name, locale, tz, language);
    load_into_model(bytes, &mut model)?;
    Ok(model)
}

/// A sheet name made by [`sanitize_sheet_name`] is always a valid sheet
/// name: 1 to 31 characters, none of `\ / ? * [ ] :`.
pub proof fn law_sanitized_sheet_names_are_valid(name: Seq<char>)
    ensures
        valid_sheet_name(sanitized_sheet_name(name)),
{
    reveal_strlit("Sheet");
    let out = sanitized_sheet_name(name);
    if name.len() > 0 {
        assert forall|i: int| 0 <= i < out.len() implies !forbidden_sheet_char(#[trigger] out[i]) by {
            if name.len() > 31 {
                assert(out[i] == sheet_name_char(name.take(31)[i]));
            } else {
                assert(out[i] == sheet_name_char(name[i]));
            }
        }
    }
}

/// Once the sheet a record names is made sure of, the workbook has it.
pub proof fn law_ensured_sheet_exists(m: ModelView, tab: u8)
    ensures
        ensured(m, tab) matches Ok(m1) ==> (tab as int) < m1.sheets.len(),
{
    lemma_grown(promoted(m), tab as nat + 1);
}

proof fn lemma_grown(m: ModelView, needed: nat)
    ensures
        grown(m, needed) matches Ok(m1) ==> needed <= m1.sheets.len() && m.sheets.len() <= m1.sheets.len(),
    decreases needed - m.sheets.len(),
{
    if m.sheets.len() < needed {
        let name = added_sheet_name(m.sheets, m.sheets.len());
        if valid_sheet_name(name) && !name_taken(m.sheets, name, -1) {
            lemma_grown(ModelView { sheets: m.sheets.push(empty_sheet(name)), ..m }, needed);
        }
    }
}

/// Whether the records from `pos` on are complete up to an EOF record that
/// ends the bytes, with no other EOF before it.
pub open spec fn ends_at_eof(buf: Seq<u8>, pos: nat) -> bool
    decreases buf.len() - pos,
{
    match record_at(buf, pos) {
        Some(Ok((op, s, e))) => if op == OP_EOF {
            e == buf.len()
        } else if e > pos {
            ends_at_eof(buf, e)
        } else {
            false
        },
        _ => false,
    }
}

/// A complete record reads the same with more bytes after it.
proof fn lemma_record_at_extended(head: Seq<u8>, tail: Seq<u8>, pos: nat)
    requires
        record_at(head, pos) matches Some(Ok(_)),
    ensures
        record_at(head + tail, pos) == record_at(head, pos),
        record_at(head, pos) matches Some(Ok((_, s, e))) && (head + tail).subrange(s as int, e as int)
            == head.subrange(s as int, e as int),
{
    let b = head + tail;
    let i = pos as int;
    assert(b[i] == head[i] && b[i + 1] == head[i + 1]);
    assert(b[i + 2] == head[i + 2] && b[i + 3] == head[i + 3]);
    match record_at(head, pos) {
        Some(Ok((_, s, e))) => {
            assert(b.subrange(s as int, e as int) =~= head.subrange(s as int, e as int));
        },
        _ => {},
    }
}

proof fn lemma_import_records_extended(head: Seq<u8>, tail: Seq<u8>, pos: nat, m: ModelView, cache: StyleCacheView)
    requires
        ends_at_eof(head, pos),
    ensures
        import_records(head + tail, pos, m, cache) == import_records(head, pos, m, cache),
    decreases head.len() - pos,
{
    lemma_record_at_extended(head, tail, pos);
    match record_at(head, pos) {
        Some(Ok((op, s, e))) => {
            if op != OP_EOF && op != OP_PASSWORD {
                match apply_record(m, cache, op, head.subrange(s as int, e as int)) {
                    Ok((m2, c2)) => lemma_import_records_extended(head, tail, e, m2, c2),
                    Err(_) => {},
                }
            }
        },
        _ => {},
    }
}

proof fn lemma_import_state_extended(head: Seq<u8>, tail: Seq<u8>, pos: nat, m: ModelView, cache: StyleCacheView)
    requires
        ends_at_eof(head, pos),
    ensures
        import_state(head + tail, pos, m, cache) == import_state(head, pos, m, cache),
    decreases head.len() - pos,
{
    lemma_record_at_extended(head, tail, pos);
    match record_at(head, pos) {
        Some(Ok((op, s, e))) => {
            if op != OP_EOF && op != OP_PASSWORD {
                match apply_record(m, cache, op, head.subrange(s as int, e as int)) {
                    Ok((m2, c2)) => lemma_import_state_extended(head, tail, e, m2, c2),
                    Err(_) => {},
                }
            }
        },
        _ => {},
    }
}

/// Nothing after the first EOF record is read: a WK3 file whose records
/// run complete up to an EOF record imports the same, and leaves the same
/// workbook (also when a record fails), whatever bytes follow it.
pub proof fn law_nothing_after_eof_is_read(head: Seq<u8>, tail: Seq<u8>, m: ModelView)
    requires
        wk3_header(head),
        record_at(head, 0) matches Some(Ok((_, _, e))) && ends_at_eof(head, e),
    ensures
        imported(head + tail, m) == imported(head, m),
        imported_state(head + tail, m) == imported_state(head, m),
{
    lemma_record_at_extended(head, tail, 0);
    let b = head + tail;
    match record_at(head, 0) {
        Some(Ok((_, s, e))) => {
            let i = s as int;
            assert(b[i] == head[i] && b[i + 1] == head[i + 1]);
            assert(b[i + 2] == head[i + 2] && b[i + 3] == head[i + 3]);
            lemma_import_records_extended(head, tail, e, m, initial_cache());
            lemma_import_state_extended(head, tail, e, m, initial_cache());
        },
        _ => {},
    }
}

} // verus!
