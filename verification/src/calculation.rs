//! Computing What-If data tables.
//!
//! Each table whose range and input cells resolve is computed in turn: for
//! every output cell, the governing formula is evaluated with the input
//! cell (or the two input cells) reading that cell's scenario value, and the
//! result is written into the output cell, whose style stays. Later tables
//! see the outputs of earlier ones.

use vstd::prelude::*;

use crate::datatable::{cell_reference, parse_cell_reference, parse_range, parsed_range, sheet_named, split_reference, CellReferenceIndex, DataTableView};
use crate::engine::{cell_content, cell_value, classify, render_value, decimal_text, error_text, lemma_boolean_text_classifies, lemma_decimal_text_classifies, lemma_error_text_classifies, ContentView, format_value, overrides_view, value_with, value_with_overrides, wf_overrides, wf_value, CellValue, ValueView};
use crate::input::{text_piece, InputText};
use crate::number::PieceView;
use crate::text::push_char;
use crate::workbook::{cells_with_input, cells_without_input, in_range, input_at, lemma_other_cell_inputs, lemma_own_cell_input, Model, ModelView, SheetView, LAST_COLUMN, LAST_ROW};

verus! {

/// A data table whose range and input cells resolved: its sheet, bounds
/// (1-based, inclusive), kind and input cells.
#[derive(Debug, Clone, Copy)]
pub struct ResolvedDataTable {
    pub sheet: u32,
    pub top: i32,
    pub left: i32,
    pub bottom: i32,
    pub right: i32,
    pub two_dimensional: bool,
    pub row_oriented: bool,
    pub r1: CellReferenceIndex,
    pub r2: Option<CellReferenceIndex>,
}

pub open spec fn reference_of(r: (nat, int, int)) -> CellReferenceIndex {
    CellReferenceIndex { sheet: r.0 as u32, row: r.1 as i32, column: r.2 as i32 }
}

/// Table `t` of sheet `sheet`, resolved: its range must be `A1:B2`-shaped
/// with a row above and a column to its left, and its input cells must
/// resolve; `None` otherwise (such a table is skipped).
pub open spec fn resolve_table(m: ModelView, sheet: u32, t: DataTableView) -> Option<ResolvedDataTable> {
    match (parsed_range(t.range), cell_reference(m, sheet, t.r1)) {
        (Some(b), Some(r1)) => if b.1 <= 1 || b.0 <= 1 || b.3 < b.1 || b.2 < b.0 {
            None
        } else {
            let r2 = match t.r2 {
                Some(s) => match cell_reference(m, sheet, s) {
                    Some(x) => Some(Some(reference_of(x))),
                    None => None,
                },
                None => Some(None),
            };
            match r2 {
                Some(r2) => Some(
                    ResolvedDataTable {
                        sheet,
                        top: b.1 as i32,
                        left: b.0 as i32,
                        bottom: b.3 as i32,
                        right: b.2 as i32,
                        two_dimensional: t.two_dimensional,
                        row_oriented: t.row_oriented,
                        r1: reference_of(r1),
                        r2,
                    },
                ),
                None => None,
            }
        },
        _ => None,
    }
}

/// The tables of a sheet that resolve, in order.
pub open spec fn resolved_in_sheet(m: ModelView, sheet: u32, ts: Seq<DataTableView>) -> Seq<ResolvedDataTable>
    decreases ts.len(),
{
    if ts.len() == 0 {
        Seq::empty()
    } else {
        let head = resolved_in_sheet(m, sheet, ts.drop_last());
        match resolve_table(m, sheet, ts.last()) {
            Some(r) => head.push(r),
            None => head,
        }
    }
}

/// The tables of the first `n` sheets that resolve, sheet by sheet.
pub open spec fn resolved_upto(m: ModelView, n: nat) -> Seq<ResolvedDataTable>
    decreases n,
{
    if n == 0 || n > m.sheets.len() {
        Seq::empty()
    } else {
        resolved_upto(m, (n - 1) as nat) + resolved_in_sheet(m, (n - 1) as u32, m.sheets[n - 1].tables)
    }
}

/// The tables of the workbook that resolve.
pub open spec fn resolved_tables(m: ModelView) -> Seq<ResolvedDataTable> {
    resolved_upto(m, m.sheets.len())
}

pub open spec fn key(r: CellReferenceIndex) -> (u32, i32, i32) {
    (r.sheet, r.row, r.column)
}

/// The outputs of a one-variable table whose inputs are in the column left
/// of its range: row by row, each cell of the row gets the value of the
/// formula above its column with the input cell reading the row's input
/// value.
#[verifier::opaque]
pub open spec fn column_outputs(m: ModelView, t: ResolvedDataTable) -> Seq<(CellReferenceIndex, ValueView)> {
    let rows = t.bottom - t.top + 1;
    let cols = t.right - t.left + 1;
    Seq::new(
        (rows * cols) as nat,
        |k: int|
            {
                let row = (t.top + k / cols) as i32;
                let column = (t.left + k % cols) as i32;
                (
                    CellReferenceIndex { sheet: t.sheet, row, column },
                    value_with(
                        m,
                        seq![(key(t.r1), cell_value(m, t.sheet, row, (t.left - 1) as i32))],
                        t.sheet,
                        (t.top - 1) as i32,
                        column,
                    ),
                )
            },
    )
}

/// The outputs of a one-variable table whose inputs are in the row above
/// its range: column by column, each cell of the column gets the value of
/// the formula left of its row with the input cell reading the column's
/// input value.
#[verifier::opaque]
pub open spec fn row_outputs(m: ModelView, t: ResolvedDataTable) -> Seq<(CellReferenceIndex, ValueView)> {
    let rows = t.bottom - t.top + 1;
    let cols = t.right - t.left + 1;
    Seq::new(
        (rows * cols) as nat,
        |k: int|
            {
                let column = (t.left + k / rows) as i32;
                let row = (t.top + k % rows) as i32;
                (
                    CellReferenceIndex { sheet: t.sheet, row, column },
                    value_with(
                        m,
                        seq![(key(t.r1), cell_value(m, t.sheet, (t.top - 1) as i32, column))],
                        t.sheet,
                        row,
                        (t.left - 1) as i32,
                    ),
                )
            },
    )
}

/// The outputs of a two-variable table: row by row, each cell gets the
/// value of the formula at the corner above and left of the range, with the
/// row input cell reading the value above the cell's column and the column
/// input cell the value left of its row.
#[verifier::opaque]
pub open spec fn grid_outputs(m: ModelView, t: ResolvedDataTable, r2: CellReferenceIndex) -> Seq<
    (CellReferenceIndex, ValueView),
> {
    let rows = t.bottom - t.top + 1;
    let cols = t.right - t.left + 1;
    Seq::new(
        (rows * cols) as nat,
        |k: int|
            {
                let row = (t.top + k / cols) as i32;
                let column = (t.left + k % cols) as i32;
                (
                    CellReferenceIndex { sheet: t.sheet, row, column },
                    value_with(
                        m,
                        seq![
                            (key(t.r1), cell_value(m, t.sheet, (t.top - 1) as i32, column)),
                            (key(r2), cell_value(m, t.sheet, row, (t.left - 1) as i32)),
                        ],
                        t.sheet,
                        (t.top - 1) as i32,
                        (t.left - 1) as i32,
                    ),
                )
            },
    )
}

/// The output cells of a table and their values. A two-variable table
/// without a second input cell has none.
pub open spec fn table_outputs(m: ModelView, t: ResolvedDataTable) -> Seq<(CellReferenceIndex, ValueView)> {
    if t.two_dimensional {
        match t.r2 {
            Some(r2) => grid_outputs(m, t, r2),
            None => Seq::empty(),
        }
    } else if t.row_oriented {
        row_outputs(m, t)
    } else {
        column_outputs(m, t)
    }
}

/// The input that holds a value: a number as its decimal text, text after
/// a `'`, a boolean as `TRUE` or `FALSE`, an error as its code; no input for
/// an empty value.
pub open spec fn value_input(v: ValueView) -> Option<Seq<PieceView>> {
    match v {
        ValueView::Empty => None,
        ValueView::Number(d) => Some(text_piece(decimal_text(d))),
        ValueView::Text(t) => Some(text_piece(seq!['\''] + t)),
        ValueView::Boolean(b) => Some(
            text_piece(
                if b {
                    "TRUE"@
                } else {
                    "FALSE"@
                },
            ),
        ),
        ValueView::Error(e) => Some(text_piece(error_text(e))),
    }
}

/// The workbook after value `v` is written into cell `r` (see
/// [`value_input`]); the cell's style stays. Unchanged for a cell off the
/// workbook.
pub open spec fn written(m: ModelView, r: CellReferenceIndex, v: ValueView) -> ModelView {
    if in_range(m, r.sheet, r.row, r.column) {
        let s = m.sheets[r.sheet as int];
        ModelView {
            sheets: m.sheets.update(
                r.sheet as int,
                SheetView {
                    cells: match value_input(v) {
                        Some(p) => cells_with_input(s.cells, r.row, r.column, p),
                        None => cells_without_input(s.cells, r.row, r.column),
                    },
                    ..s
                },
            ),
            ..m
        }
    } else {
        m
    }
}

/// The workbook after the first `n` outputs are written, in order.
pub open spec fn written_all(m: ModelView, outs: Seq<(CellReferenceIndex, ValueView)>, n: nat) -> ModelView
    decreases n,
{
    if n == 0 || n > outs.len() {
        m
    } else {
        let prev = written_all(m, outs, (n - 1) as nat);
        written(prev, outs[n - 1].0, outs[n - 1].1)
    }
}

/// The workbook after the tables `ts` are computed in order, each seeing
/// the outputs of those before it.
pub open spec fn after_tables(m: ModelView, ts: Seq<ResolvedDataTable>) -> ModelView
    decreases ts.len(),
{
    if ts.len() == 0 {
        m
    } else {
        let outs = table_outputs(m, ts[0]);
        after_tables(written_all(m, outs, outs.len()), ts.skip(1))
    }
}

/// The workbook once its data tables are computed.
pub open spec fn computed(m: ModelView) -> ModelView {
    after_tables(m, resolved_tables(m))
}

/// A resolved table of a workbook: its sheet exists and its range leaves a
/// row above and a column to its left on the sheet.
pub open spec fn valid_resolved(m: ModelView, t: ResolvedDataTable) -> bool {
    &&& t.sheet < m.sheets.len()
    &&& 2 <= t.top <= t.bottom <= LAST_ROW
    &&& 2 <= t.left <= t.right <= LAST_COLUMN
}

proof fn lemma_resolve_table_valid(m: ModelView, sheet: u32, t: DataTableView)
    requires
        sheet < m.sheets.len(),
    ensures
        resolve_table(m, sheet, t) matches Some(r) ==> valid_resolved(m, r) && r.sheet == sheet,
{
}

fn resolve_one(model: &Model, sheet: u32, t: &crate::datatable::DataTable) -> (r: Option<ResolvedDataTable>)
    ensures
        r == resolve_table(model@, sheet, t@),
{
    let (left, top, right, bottom) = match parse_range(t.range.as_str()) {
        Some(b) => b,
        None => return None,
    };
    let r1 = match parse_cell_reference(model, sheet, t.r1.as_str()) {
        Some(r) => r,
        None => return None,
    };
    if top <= 1 || left <= 1 || bottom < top || right < left {
        return None;
    }
    let r2 = match &t.r2 {
        Some(s) => match parse_cell_reference(model, sheet, s.as_str()) {
            Some(r) => Some(r),
            None => return None,
        },
        None => None,
    };
    Some(
        ResolvedDataTable {
            sheet,
            top,
            left,
            bottom,
            right,
            two_dimensional: t.two_dimensional,
            row_oriented: t.row_oriented,
            r1,
            r2,
        },
    )
}

/// In a two-variable table, each output cell holds the corner formula
/// (above and left of the range) evaluated with the table's row input cell
/// (`r1`) reading the value above the output's column, and its column input
/// cell (`r2`) reading the value left of the output's row. Stated for the
/// table as written, `bounds` being its range `(left, top, right, bottom)`
/// and `a`, `b` its two input cells.
pub proof fn law_two_variable_table_inputs(
    m: ModelView,
    sheet: u32,
    t: DataTableView,
    bounds: (int, int, int, int),
    a: (nat, int, int),
    s2: Seq<char>,
    b: (nat, int, int),
    row: i32,
    column: i32,
)
    requires
        sheet < m.sheets.len(),
        t.two_dimensional,
        parsed_range(t.range) == Some(bounds),
        cell_reference(m, sheet, t.r1) == Some(a),
        t.r2 == Some(s2),
        cell_reference(m, sheet, s2) == Some(b),
        1 < bounds.1 <= row <= bounds.3,
        1 < bounds.0 <= column <= bounds.2,
    ensures
        resolve_table(m, sheet, t) matches Some(rt) && table_outputs(m, rt)[(row - bounds.1) * (bounds.2
            - bounds.0 + 1) + (column - bounds.0)] == (
            CellReferenceIndex { sheet, row, column },
            value_with(
                m,
                seq![
                    ((a.0 as u32, a.1 as i32, a.2 as i32), cell_value(m, sheet, (bounds.1 - 1) as i32, column)),
                    ((b.0 as u32, b.1 as i32, b.2 as i32), cell_value(m, sheet, row, (bounds.0 - 1) as i32)),
                ],
                sheet,
                (bounds.1 - 1) as i32,
                (bounds.0 - 1) as i32,
            ),
        ),
{
    lemma_resolve_table_valid(m, sheet, t);
    let rt = resolve_table(m, sheet, t).unwrap();
    lemma_grid_output_at(m, rt, reference_of(b), row, column);
}

/// In a one-variable table, each output cell holds a formula of the table
/// evaluated with the table's input cell (`r1`) reading the cell's scenario
/// value. Inputs down the column left of the range: the formula is the one
/// above the output's column, the value the one left of its row. Inputs
/// along the row above the range: the formula is the one left of the
/// output's row, the value the one above its column. Stated for the table as
/// written, `bounds` being its range `(left, top, right, bottom)` and `a` its
/// input cell.
pub proof fn law_one_variable_table_inputs(
    m: ModelView,
    sheet: u32,
    t: DataTableView,
    bounds: (int, int, int, int),
    a: (nat, int, int),
    row: i32,
    column: i32,
)
    requires
        sheet < m.sheets.len(),
        !t.two_dimensional,
        parsed_range(t.range) == Some(bounds),
        cell_reference(m, sheet, t.r1) == Some(a),
        t.r2 matches Some(s2) ==> cell_reference(m, sheet, s2) is Some,
        1 < bounds.1 <= row <= bounds.3,
        1 < bounds.0 <= column <= bounds.2,
    ensures
        resolve_table(m, sheet, t) matches Some(rt) && if t.row_oriented {
            table_outputs(m, rt)[(column - bounds.0) * (bounds.3 - bounds.1 + 1) + (row - bounds.1)] == (
                CellReferenceIndex { sheet, row, column },
                value_with(
                    m,
                    seq![((a.0 as u32, a.1 as i32, a.2 as i32), cell_value(m, sheet, (bounds.1 - 1) as i32, column))],
                    sheet,
                    row,
                    (bounds.0 - 1) as i32,
                ),
            )
        } else {
            table_outputs(m, rt)[(row - bounds.1) * (bounds.2 - bounds.0 + 1) + (column - bounds.0)] == (
                CellReferenceIndex { sheet, row, column },
                value_with(
                    m,
                    seq![((a.0 as u32, a.1 as i32, a.2 as i32), cell_value(m, sheet, row, (bounds.0 - 1) as i32))],
                    sheet,
                    (bounds.1 - 1) as i32,
                    column,
                ),
            )
        },
{
    lemma_resolve_table_valid(m, sheet, t);
    let rt = resolve_table(m, sheet, t).unwrap();
    lemma_column_output_at(m, rt, row, column);
    lemma_row_output_at(m, rt, row, column);
}

/// The tables of the workbook whose range and input cells resolve, sheet
/// by sheet (see [`resolved_tables`]).
pub fn resolve_data_tables(model: &Model) -> (r: Vec<ResolvedDataTable>)
    ensures
        r@ == resolved_tables(model@),
{
    let mut out: Vec<ResolvedDataTable> = Vec::new();
    let mut i: usize = 0;
    while i < model.worksheets.len()
        invariant
            i <= model.worksheets@.len(),
            out@ == resolved_upto(model@, i as nat),
        decreases model.worksheets@.len() - i,
    {
        let ghost ts = model@.sheets[i as int].tables;
        assert(model@.sheets[i as int] == model.worksheets@[i as int]@);
        let tables = &model.worksheets[i].data_tables;
        let mut j: usize = 0;
        assert(ts.take(0) =~= Seq::<DataTableView>::empty());
        assert(out@ =~= resolved_upto(model@, i as nat) + resolved_in_sheet(model@, i as u32, ts.take(0)));
        while j < tables.len()
            invariant
                i < model.worksheets@.len(),
                j <= tables@.len(),
                *tables == model.worksheets@[i as int].data_tables,
                ts == model@.sheets[i as int].tables,
                ts.len() == tables@.len(),
                forall|k: int| 0 <= k < ts.len() ==> #[trigger] ts[k] == tables@[k]@,
                out@ == resolved_upto(model@, i as nat) + resolved_in_sheet(model@, i as u32, ts.take(j as int)),
            decreases tables@.len() - j,
        {
            assert(ts.take(j + 1).drop_last() =~= ts.take(j as int));
            assert(ts.take(j + 1).last() == tables@[j as int]@);
            match resolve_one(model, i as u32, &tables[j]) {
                Some(r) => {
                    out.push(r);
                },
                None => {},
            }
            j += 1;
            assert(out@ =~= resolved_upto(model@, i as nat) + resolved_in_sheet(model@, i as u32, ts.take(j as int)));
        }
        assert(ts.take(j as int) =~= ts);
        i += 1;
    }
    out
}

/// The contents of a list of outputs.
pub open spec fn outputs_view(o: Seq<(CellReferenceIndex, CellValue)>) -> Seq<(CellReferenceIndex, ValueView)> {
    o.map_values(|x: (CellReferenceIndex, CellValue)| (x.0, x.1@))
}

proof fn lemma_index_split(k: int, i: int, j: int, n: int)
    requires
        n > 0,
        0 <= j < n,
        0 <= i,
        k == i * n + j,
    ensures
        k / n == i,
        k % n == j,
{
    vstd::arithmetic::div_mod::lemma_fundamental_div_mod_converse(k, n, i, j);
}

fn one_override(r: CellReferenceIndex, v: CellValue) -> (o: Vec<((u32, i32, i32), CellValue)>)
    requires
        wf_value(v@),
    ensures
        overrides_view(o@) == seq![(key(r), v@)],
        wf_overrides(overrides_view(o@)),
{
    let mut o = Vec::new();
    o.push(((r.sheet, r.row, r.column), v));
    assert(overrides_view(o@) =~= seq![(key(r), o@[0].1@)]);
    o
}

fn cell_value_exec(model: &Model, sheet: u32, row: i32, column: i32) -> (v: CellValue)
    requires
        sheet < model@.sheets.len(),
    ensures
        v@ == cell_value(model@, sheet, row, column),
        wf_value(v@),
{
    let none: Vec<((u32, i32, i32), CellValue)> = Vec::new();
    assert(overrides_view(none@) =~= Seq::<((u32, i32, i32), ValueView)>::empty());
    value_with_overrides(model, &none, sheet, row, column)
}

proof fn lemma_column_output_at(m: ModelView, t: ResolvedDataTable, row: i32, column: i32)
    requires
        valid_resolved(m, t),
        t.top <= row <= t.bottom,
        t.left <= column <= t.right,
    ensures
        column_outputs(m, t).len() == (t.bottom - t.top + 1) * (t.right - t.left + 1),
        0 <= (row - t.top) * (t.right - t.left + 1) + (column - t.left) < column_outputs(m, t).len(),
        column_outputs(m, t)[(row - t.top) * (t.right - t.left + 1) + (column - t.left)] == (
            CellReferenceIndex { sheet: t.sheet, row, column },
            value_with(
                m,
                seq![(key(t.r1), cell_value(m, t.sheet, row, (t.left - 1) as i32))],
                t.sheet,
                (t.top - 1) as i32,
                column,
            ),
        ),
{
    reveal(column_outputs);
    let cols = t.right - t.left + 1;
    let k = (row - t.top) * cols + (column - t.left);
    lemma_index_split(k, (row - t.top) as int, (column - t.left) as int, cols as int);
    assert(0 <= k < (t.bottom - t.top + 1) * cols) by (nonlinear_arith)
        requires
            k == (row - t.top) * cols + (column - t.left),
            0 <= row - t.top < t.bottom - t.top + 1,
            0 <= column - t.left < cols,
    ;
    assert((t.bottom - t.top + 1) * cols >= 0) by (nonlinear_arith)
        requires
            t.bottom - t.top + 1 >= 1,
            cols >= 1,
    ;
}

/// The outputs of a one-variable table with its inputs in a column (see
/// [`column_outputs`]).
fn column_outputs_exec(model: &Model, t: &ResolvedDataTable) -> (r: Vec<(CellReferenceIndex, CellValue)>)
    requires
        valid_resolved(model@, *t),
    ensures
        outputs_view(r@) == column_outputs(model@, *t),
        forall|k: int| 0 <= k < r@.len() ==> wf_value(#[trigger] r@[k].1@),
{
    let ghost spec_out = column_outputs(model@, *t);
    proof {
        lemma_column_output_at(model@, *t, t.top, t.left);
    }
    let cols = t.right - t.left + 1;
    let mut out: Vec<(CellReferenceIndex, CellValue)> = Vec::new();
    let mut row = t.top;
    while row <= t.bottom
        invariant
            valid_resolved(model@, *t),
            cols == t.right - t.left + 1,
            t.top <= row <= t.bottom + 1,
            out@.len() == (row - t.top) * cols,
            spec_out == column_outputs(model@, *t),
            spec_out.len() == (t.bottom - t.top + 1) * cols,
            forall|k: int| 0 <= k < out@.len() ==> (#[trigger] out@[k]).0 == spec_out[k].0 && out@[k].1@
                == spec_out[k].1 && wf_value(out@[k].1@),
        decreases t.bottom + 1 - row,
    {
        let input = cell_value_exec(model, t.sheet, row, t.left - 1);
        let ghost iv = input@;
        let ov = one_override(t.r1, input);
        let mut column = t.left;
        while column <= t.right
            invariant
                valid_resolved(model@, *t),
                cols == t.right - t.left + 1,
                t.top <= row <= t.bottom,
                t.left <= column <= t.right + 1,
                out@.len() == (row - t.top) * cols + (column - t.left),
                spec_out == column_outputs(model@, *t),
                spec_out.len() == (t.bottom - t.top + 1) * cols,
                iv == cell_value(model@, t.sheet, row, (t.left - 1) as i32),
                overrides_view(ov@) == seq![(key(t.r1), iv)],
                wf_overrides(overrides_view(ov@)),
                forall|k: int| 0 <= k < out@.len() ==> (#[trigger] out@[k]).0 == spec_out[k].0
                    && out@[k].1@ == spec_out[k].1 && wf_value(out@[k].1@),
            decreases t.right + 1 - column,
        {
            let v = value_with_overrides(model, &ov, t.sheet, t.top - 1, column);
            proof {
                lemma_column_output_at(model@, *t, row, column);
            }
            out.push((CellReferenceIndex { sheet: t.sheet, row, column }, v));
            column += 1;
        }
        proof {
            assert((row - t.top) * cols + cols == (row + 1 - t.top) * cols) by (nonlinear_arith);
        }
        row += 1;
    }
    proof {
        assert(out@.len() == spec_out.len());
        assert(outputs_view(out@) =~= spec_out);
    }
    out
}

proof fn lemma_row_output_at(m: ModelView, t: ResolvedDataTable, row: i32, column: i32)
    requires
        valid_resolved(m, t),
        t.top <= row <= t.bottom,
        t.left <= column <= t.right,
    ensures
        row_outputs(m, t).len() == (t.bottom - t.top + 1) * (t.right - t.left + 1),
        0 <= (column - t.left) * (t.bottom - t.top + 1) + (row - t.top) < row_outputs(m, t).len(),
        row_outputs(m, t)[(column - t.left) * (t.bottom - t.top + 1) + (row - t.top)] == (
            CellReferenceIndex { sheet: t.sheet, row, column },
            value_with(
                m,
                seq![(key(t.r1), cell_value(m, t.sheet, (t.top - 1) as i32, column))],
                t.sheet,
                row,
                (t.left - 1) as i32,
            ),
        ),
{
    reveal(row_outputs);
    let rows = t.bottom - t.top + 1;
    let cols = t.right - t.left + 1;
    let k = (column - t.left) * rows + (row - t.top);
    lemma_index_split(k, (column - t.left) as int, (row - t.top) as int, rows as int);
    assert(0 <= k < rows * cols) by (nonlinear_arith)
        requires
            k == (column - t.left) * rows + (row - t.top),
            0 <= column - t.left < cols,
            0 <= row - t.top < rows,
    ;
    assert(rows * cols >= 0) by (nonlinear_arith)
        requires
            rows >= 1,
            cols >= 1,
    ;
}

/// The outputs of a one-variable table with its inputs in a row (see
/// [`row_outputs`]).
fn row_outputs_exec(model: &Model, t: &ResolvedDataTable) -> (r: Vec<(CellReferenceIndex, CellValue)>)
    requires
        valid_resolved(model@, *t),
    ensures
        outputs_view(r@) == row_outputs(model@, *t),
        forall|k: int| 0 <= k < r@.len() ==> wf_value(#[trigger] r@[k].1@),
{
    let ghost spec_out = row_outputs(model@, *t);
    proof {
        lemma_row_output_at(model@, *t, t.top, t.left);
    }
    let rows = t.bottom - t.top + 1;
    let mut out: Vec<(CellReferenceIndex, CellValue)> = Vec::new();
    let mut column = t.left;
    while column <= t.right
        invariant
            valid_resolved(model@, *t),
            rows == t.bottom - t.top + 1,
            t.left <= column <= t.right + 1,
            out@.len() == (column - t.left) * rows,
            spec_out == row_outputs(model@, *t),
            spec_out.len() == rows * (t.right - t.left + 1),
            forall|k: int| 0 <= k < out@.len() ==> (#[trigger] out@[k]).0 == spec_out[k].0 && out@[k].1@
                == spec_out[k].1 && wf_value(out@[k].1@),
        decreases t.right + 1 - column,
    {
        let input = cell_value_exec(model, t.sheet, t.top - 1, column);
        let ghost iv = input@;
        let ov = one_override(t.r1, input);
        let mut row = t.top;
        while row <= t.bottom
            invariant
                valid_resolved(model@, *t),
                rows == t.bottom - t.top + 1,
                t.left <= column <= t.right,
                t.top <= row <= t.bottom + 1,
                out@.len() == (column - t.left) * rows + (row - t.top),
                spec_out == row_outputs(model@, *t),
                spec_out.len() == rows * (t.right - t.left + 1),
                iv == cell_value(model@, t.sheet, (t.top - 1) as i32, column),
                overrides_view(ov@) == seq![(key(t.r1), iv)],
                wf_overrides(overrides_view(ov@)),
                forall|k: int| 0 <= k < out@.len() ==> (#[trigger] out@[k]).0 == spec_out[k].0
                    && out@[k].1@ == spec_out[k].1 && wf_value(out@[k].1@),
            decreases t.bottom + 1 - row,
        {
            let v = value_with_overrides(model, &ov, t.sheet, row, t.left - 1);
            proof {
                lemma_row_output_at(model@, *t, row, column);
            }
            out.push((CellReferenceIndex { sheet: t.sheet, row, column }, v));
            row += 1;
        }
        proof {
            assert((column - t.left) * rows + rows == (column + 1 - t.left) * rows) by (nonlinear_arith);
        }
        column += 1;
    }
    proof {
        assert((column - t.left) * rows == rows * (t.right - t.left + 1)) by (nonlinear_arith)
            requires
                column == t.right + 1,
        ;
        assert(out@.len() == spec_out.len());
        assert(outputs_view(out@) =~= spec_out);
    }
    out
}

proof fn lemma_grid_output_at(m: ModelView, t: ResolvedDataTable, r2: CellReferenceIndex, row: i32, column: i32)
    requires
        valid_resolved(m, t),
        t.top <= row <= t.bottom,
        t.left <= column <= t.right,
    ensures
        grid_outputs(m, t, r2).len() == (t.bottom - t.top + 1) * (t.right - t.left + 1),
        0 <= (row - t.top) * (t.right - t.left + 1) + (column - t.left) < grid_outputs(m, t, r2).len(),
        grid_outputs(m, t, r2)[(row - t.top) * (t.right - t.left + 1) + (column - t.left)] == (
            CellReferenceIndex { sheet: t.sheet, row, column },
            value_with(
                m,
                seq![
                    (key(t.r1), cell_value(m, t.sheet, (t.top - 1) as i32, column)),
                    (key(r2), cell_value(m, t.sheet, row, (t.left - 1) as i32)),
                ],
                t.sheet,
                (t.top - 1) as i32,
                (t.left - 1) as i32,
            ),
        ),
{
    let cols = t.right - t.left + 1;
    let k = (row - t.top) * cols + (column - t.left);
    lemma_index_split(k, (row - t.top) as int, (column - t.left) as int, cols as int);
    assert((t.top + k / cols) as i32 == row);
    assert((t.left + k % cols) as i32 == column);
    assert(0 <= k < (t.bottom - t.top + 1) * cols) by (nonlinear_arith)
        requires
            k == (row - t.top) * cols + (column - t.left),
            0 <= row - t.top < t.bottom - t.top + 1,
            0 <= column - t.left < cols,
    ;
    assert((t.bottom - t.top + 1) * cols >= 0) by (nonlinear_arith)
        requires
            t.bottom - t.top + 1 >= 1,
            cols >= 1,
    ;
    reveal(grid_outputs);
}

fn two_overrides(r1: CellReferenceIndex, v1: CellValue, r2: CellReferenceIndex, v2: CellValue) -> (o: Vec<
    ((u32, i32, i32), CellValue),
>)
    requires
        wf_value(v1@),
        wf_value(v2@),
    ensures
        overrides_view(o@) == seq![(key(r1), v1@), (key(r2), v2@)],
        wf_overrides(overrides_view(o@)),
{
    let ghost a = v1@;
    let ghost b = v2@;
    let mut o = Vec::new();
    o.push(((r1.sheet, r1.row, r1.column), v1));
    o.push(((r2.sheet, r2.row, r2.column), v2));
    assert(overrides_view(o@) =~= seq![(key(r1), a), (key(r2), b)]);
    o
}

/// The outputs of a two-variable table (see [`grid_outputs`]).
fn grid_outputs_exec(model: &Model, t: &ResolvedDataTable, r2: CellReferenceIndex) -> (r: Vec<
    (CellReferenceIndex, CellValue),
>)
    requires
        valid_resolved(model@, *t),
    ensures
        outputs_view(r@) == grid_outputs(model@, *t, r2),
        forall|k: int| 0 <= k < r@.len() ==> wf_value(#[trigger] r@[k].1@),
{
    let ghost spec_out = grid_outputs(model@, *t, r2);
    proof {
        lemma_grid_output_at(model@, *t, r2, t.top, t.left);
    }
    let cols = t.right - t.left + 1;
    let mut out: Vec<(CellReferenceIndex, CellValue)> = Vec::new();
    let mut row = t.top;
    while row <= t.bottom
        invariant
            valid_resolved(model@, *t),
            cols == t.right - t.left + 1,
            t.top <= row <= t.bottom + 1,
            out@.len() == (row - t.top) * cols,
            spec_out == grid_outputs(model@, *t, r2),
            spec_out.len() == (t.bottom - t.top + 1) * cols,
            forall|k: int| 0 <= k < out@.len() ==> (#[trigger] out@[k]).0 == spec_out[k].0 && out@[k].1@
                == spec_out[k].1 && wf_value(out@[k].1@),
        decreases t.bottom + 1 - row,
    {
        let mut column = t.left;
        while column <= t.right
            invariant
                valid_resolved(model@, *t),
                cols == t.right - t.left + 1,
                t.top <= row <= t.bottom,
                t.left <= column <= t.right + 1,
                out@.len() == (row - t.top) * cols + (column - t.left),
                spec_out == grid_outputs(model@, *t, r2),
                spec_out.len() == (t.bottom - t.top + 1) * cols,
                forall|k: int| 0 <= k < out@.len() ==> (#[trigger] out@[k]).0 == spec_out[k].0
                    && out@[k].1@ == spec_out[k].1 && wf_value(out@[k].1@),
            decreases t.right + 1 - column,
        {
            let row_input = cell_value_exec(model, t.sheet, t.top - 1, column);
            let column_input = cell_value_exec(model, t.sheet, row, t.left - 1);
            let ov = two_overrides(t.r1, row_input, r2, column_input);
            let v = value_with_overrides(model, &ov, t.sheet, t.top - 1, t.left - 1);
            proof {
                lemma_grid_output_at(model@, *t, r2, row, column);
            }
            out.push((CellReferenceIndex { sheet: t.sheet, row, column }, v));
            column += 1;
        }
        proof {
            assert((row - t.top) * cols + cols == (row + 1 - t.top) * cols) by (nonlinear_arith);
        }
        row += 1;
    }
    proof {
        assert(out@.len() == spec_out.len());
        assert(outputs_view(out@) =~= spec_out);
    }
    out
}

/// The outputs of a table (see [`table_outputs`]).
fn table_outputs_exec(model: &Model, t: &ResolvedDataTable) -> (r: Vec<(CellReferenceIndex, CellValue)>)
    requires
        valid_resolved(model@, *t),
    ensures
        outputs_view(r@) == table_outputs(model@, *t),
        forall|k: int| 0 <= k < r@.len() ==> wf_value(#[trigger] r@[k].1@),
{
    if t.two_dimensional {
        match t.r2 {
            Some(r2) => grid_outputs_exec(model, t, r2),
            None => {
                let out: Vec<(CellReferenceIndex, CellValue)> = Vec::new();
                assert(outputs_view(out@) =~= Seq::<(CellReferenceIndex, ValueView)>::empty());
                out
            },
        }
    } else if t.row_oriented {
        row_outputs_exec(model, t)
    } else {
        column_outputs_exec(model, t)
    }
}

proof fn lemma_resolved_in_sheet_valid(m: ModelView, sheet: u32, ts: Seq<DataTableView>)
    requires
        sheet < m.sheets.len(),
    ensures
        forall|k: int|
            0 <= k < resolved_in_sheet(m, sheet, ts).len() ==> valid_resolved(
                m,
                #[trigger] resolved_in_sheet(m, sheet, ts)[k],
            ),
    decreases ts.len(),
{
    if ts.len() > 0 {
        lemma_resolved_in_sheet_valid(m, sheet, ts.drop_last());
        lemma_resolve_table_valid(m, sheet, ts.last());
        let head = resolved_in_sheet(m, sheet, ts.drop_last());
        let all = resolved_in_sheet(m, sheet, ts);
        assert forall|k: int| 0 <= k < all.len() implies valid_resolved(m, #[trigger] all[k]) by {
            if k < head.len() {
                assert(all[k] == head[k]);
            }
        }
    }
}

proof fn lemma_resolved_upto_valid(m: ModelView, n: nat)
    ensures
        forall|k: int| 0 <= k < resolved_upto(m, n).len() ==> valid_resolved(m, #[trigger] resolved_upto(m, n)[k]),
    decreases n,
{
    if n > 0 && n <= m.sheets.len() {
        lemma_resolved_upto_valid(m, (n - 1) as nat);
        lemma_resolved_in_sheet_valid(m, (n - 1) as u32, m.sheets[n - 1].tables);
        let a = resolved_upto(m, (n - 1) as nat);
        let b = resolved_in_sheet(m, (n - 1) as u32, m.sheets[n - 1].tables);
        assert forall|k: int| 0 <= k < (a + b).len() implies valid_resolved(m, #[trigger] (a + b)[k]) by {
            if k < a.len() {
                assert((a + b)[k] == a[k]);
            } else {
                assert((a + b)[k] == b[k - a.len()]);
            }
        }
    }
}

proof fn lemma_written_all_len(m: ModelView, outs: Seq<(CellReferenceIndex, ValueView)>, n: nat)
    ensures
        written_all(m, outs, n).sheets.len() == m.sheets.len(),
    decreases n,
{
    if n > 0 && n <= outs.len() {
        lemma_written_all_len(m, outs, (n - 1) as nat);
    }
}

/// Writes value `v` into cell `r`, keeping the cell's style (see
/// [`written`]).
fn write_value(model: &mut Model, r: CellReferenceIndex, v: &CellValue)
    requires
        wf_value(v@),
    ensures
        final(model)@ == written(old(model)@, r, v@),
{
    match v {
        CellValue::Empty => {
            let _ = model.clear_cell_contents(r.sheet, r.row, r.column);
        },
        CellValue::Text(t) => {
            let mut s = String::new();
            push_char(&mut s, '\'');
            s.append(t.as_str());
            let _ = model.set_user_input(r.sheet, r.row, r.column, InputText::from_string(s));
        },
        _ => {
            let s = format_value(v);
            let _ = model.set_user_input(r.sheet, r.row, r.column, InputText::from_string(s));
        },
    }
}

proof fn lemma_after_tables_len(m: ModelView, ts: Seq<ResolvedDataTable>)
    ensures
        after_tables(m, ts).sheets.len() == m.sheets.len(),
    decreases ts.len(),
{
    if ts.len() > 0 {
        let outs = table_outputs(m, ts[0]);
        lemma_written_all_len(m, outs, outs.len());
        lemma_after_tables_len(written_all(m, outs, outs.len()), ts.skip(1));
    }
}

/// Computing the tables keeps the sheets (their number included).
pub proof fn lemma_computed_len(m: ModelView)
    ensures
        computed(m).sheets.len() == m.sheets.len(),
{
    lemma_after_tables_len(m, resolved_tables(m));
}

impl Model {
    /// Computes the workbook's data tables (see [`computed`]).
    pub fn evaluate(&mut self)
        ensures
            final(self)@ == computed(old(self)@),
            final(self)@.sheets.len() == old(self)@.sheets.len(),
    {
        proof {
            lemma_computed_len(self@);
        }
        let tables = resolve_data_tables(self);
        let ghost m0 = self@;
        proof {
            lemma_resolved_upto_valid(m0, m0.sheets.len());
            assert(tables@.skip(0) =~= tables@);
        }
        let mut i: usize = 0;
        while i < tables.len()
            invariant
                i <= tables@.len(),
                tables@ == resolved_tables(m0),
                self@.sheets.len() == m0.sheets.len(),
                forall|k: int| 0 <= k < tables@.len() ==> valid_resolved(m0, #[trigger] tables@[k]),
                after_tables(self@, tables@.skip(i as int)) == computed(m0),
            decreases tables@.len() - i,
        {
            let t = tables[i];
            assert(valid_resolved(m0, tables@[i as int]));
            let outs = table_outputs_exec(self, &t);
            let ghost before = self@;
            let ghost ov = outputs_view(outs@);
            let mut j: usize = 0;
            while j < outs.len()
                invariant
                    j <= outs@.len(),
                    ov == outputs_view(outs@),
                    forall|k: int| 0 <= k < outs@.len() ==> wf_value(#[trigger] outs@[k].1@),
                    self@ == written_all(before, ov, j as nat),
                decreases outs@.len() - j,
            {
                assert(ov[j as int] == (outs@[j as int].0, outs@[j as int].1@));
                write_value(self, outs[j].0, &outs[j].1);
                j += 1;
            }
            proof {
                lemma_written_all_len(before, ov, ov.len());
                assert(tables@.skip(i as int).skip(1) =~= tables@.skip(i + 1));
                assert(tables@.skip(i as int)[0] == tables@[i as int]);
            }
            i += 1;
        }
    }
}

// ---------------------------------------------------------------------------
// What computing the tables keeps
// ---------------------------------------------------------------------------

/// Two workbooks that differ at most in the cells of their sheets.
pub open spec fn same_but_cells(a: ModelView, b: ModelView) -> bool {
    &&& a.name == b.name
    &&& a.names == b.names
    &&& a.calc == b.calc
    &&& a.sheets.len() == b.sheets.len()
    &&& forall|i: int|
        0 <= i < a.sheets.len() ==> (#[trigger] a.sheets[i]).name == b.sheets[i].name
            && a.sheets[i].columns == b.sheets[i].columns && a.sheets[i].rows == b.sheets[i].rows
            && a.sheets[i].tables == b.sheets[i].tables
}

proof fn lemma_written_same(m: ModelView, r: CellReferenceIndex, v: ValueView)
    ensures
        same_but_cells(written(m, r, v), m),
{
}

proof fn lemma_written_all_same(m: ModelView, outs: Seq<(CellReferenceIndex, ValueView)>, n: nat)
    ensures
        same_but_cells(written_all(m, outs, n), m),
    decreases n,
{
    if n > 0 && n <= outs.len() {
        lemma_written_all_same(m, outs, (n - 1) as nat);
        let prev = written_all(m, outs, (n - 1) as nat);
        lemma_written_same(prev, outs[n - 1].0, outs[n - 1].1);
    }
}

proof fn lemma_after_tables_same(m: ModelView, ts: Seq<ResolvedDataTable>)
    ensures
        same_but_cells(after_tables(m, ts), m),
    decreases ts.len(),
{
    if ts.len() > 0 {
        let outs = table_outputs(m, ts[0]);
        let m1 = written_all(m, outs, outs.len());
        lemma_written_all_same(m, outs, outs.len());
        lemma_after_tables_same(m1, ts.skip(1));
    }
}

/// Computing the data tables changes nothing but cells: the workbook's
/// name, defined names and calculation settings, and each sheet's name,
/// columns, rows and tables stay.
pub proof fn law_computing_tables_changes_only_cells(m: ModelView)
    ensures
        same_but_cells(computed(m), m),
{
    lemma_after_tables_same(m, resolved_tables(m));
}

/// Whether cell `(row, column)` of sheet `sheet` is an output cell of `t`.
pub open spec fn in_table_range(t: ResolvedDataTable, sheet: u32, row: i32, column: i32) -> bool {
    t.sheet == sheet && t.top <= row <= t.bottom && t.left <= column <= t.right
}

proof fn lemma_written_other_input(m: ModelView, r: CellReferenceIndex, v: ValueView, sheet: u32, row: i32, column: i32)
    requires
        !(r.sheet == sheet && r.row == row && r.column == column),
    ensures
        input_at(written(m, r, v), sheet, row, column) == input_at(m, sheet, row, column),
{
    if in_range(m, r.sheet, r.row, r.column) && r.sheet == sheet {
        lemma_other_cell_inputs(m.sheets[sheet as int].cells, r.row, r.column, value_input(v), row, column);
    }
}

proof fn lemma_written_all_other(
    m: ModelView,
    outs: Seq<(CellReferenceIndex, ValueView)>,
    n: nat,
    sheet: u32,
    row: i32,
    column: i32,
)
    requires
        forall|j: int|
            0 <= j < outs.len() ==> !((#[trigger] outs[j]).0.sheet == sheet && outs[j].0.row == row
                && outs[j].0.column == column),
    ensures
        input_at(written_all(m, outs, n), sheet, row, column) == input_at(m, sheet, row, column),
    decreases n,
{
    if n > 0 && n <= outs.len() {
        lemma_written_all_other(m, outs, (n - 1) as nat, sheet, row, column);
        let prev = written_all(m, outs, (n - 1) as nat);
        let o = outs[n - 1];
        lemma_written_other_input(prev, o.0, o.1, sheet, row, column);
    }
}

proof fn lemma_quotient_below(k: int, rows: int, cols: int)
    requires
        rows >= 1,
        cols >= 1,
        0 <= k < rows * cols,
    ensures
        0 <= k / cols < rows,
        0 <= k % cols < cols,
{
    vstd::arithmetic::div_mod::lemma_fundamental_div_mod(k, cols);
    vstd::arithmetic::div_mod::lemma_mod_bound(k, cols);
    assert(0 <= k / cols < rows) by (nonlinear_arith)
        requires
            k == cols * (k / cols) + k % cols,
            0 <= k % cols < cols,
            0 <= k < rows * cols,
            cols >= 1,
    ;
}

/// Every output of a table is one of its output cells.
proof fn lemma_output_cells(m: ModelView, t: ResolvedDataTable, k: int)
    requires
        t.top <= t.bottom,
        t.left <= t.right,
        0 <= k < table_outputs(m, t).len(),
    ensures
        in_table_range(
            t,
            table_outputs(m, t)[k].0.sheet,
            table_outputs(m, t)[k].0.row,
            table_outputs(m, t)[k].0.column,
        ),
{
    let rows = t.bottom - t.top + 1;
    let cols = t.right - t.left + 1;
    if t.two_dimensional {
        match t.r2 {
            Some(r2) => {
                reveal(grid_outputs);
                lemma_quotient_below(k, rows as int, cols as int);
            },
            None => {},
        }
    } else if t.row_oriented {
        reveal(row_outputs);
        assert(k < cols * rows) by (nonlinear_arith)
            requires
                k < rows * cols,
        ;
        lemma_quotient_below(k, cols as int, rows as int);
    } else {
        reveal(column_outputs);
        lemma_quotient_below(k, rows as int, cols as int);
    }
}

proof fn lemma_after_tables_other(m: ModelView, ts: Seq<ResolvedDataTable>, sheet: u32, row: i32, column: i32)
    requires
        forall|k: int| 0 <= k < ts.len() ==> (#[trigger] ts[k]).top <= ts[k].bottom && ts[k].left <= ts[k].right,
        forall|k: int| 0 <= k < ts.len() ==> !in_table_range(#[trigger] ts[k], sheet, row, column),
    ensures
        input_at(after_tables(m, ts), sheet, row, column) == input_at(m, sheet, row, column),
    decreases ts.len(),
{
    if ts.len() > 0 {
        let t = ts[0];
        let outs = table_outputs(m, t);
        assert forall|j: int| 0 <= j < outs.len() implies !((#[trigger] outs[j]).0.sheet == sheet
            && outs[j].0.row == row && outs[j].0.column == column) by {
            lemma_output_cells(m, t, j);
        }
        lemma_written_all_other(m, outs, outs.len(), sheet, row, column);
        let m1 = written_all(m, outs, outs.len());
        let rest = ts.skip(1);
        assert forall|k: int| 0 <= k < rest.len() implies (#[trigger] rest[k]).top <= rest[k].bottom
            && rest[k].left <= rest[k].right && !in_table_range(rest[k], sheet, row, column) by {
            assert(rest[k] == ts[k + 1]);
        }
        lemma_after_tables_other(m1, rest, sheet, row, column);
    }
}

/// Computing the data tables leaves the input of every cell that is not
/// an output cell of a table as it was: in particular the input cells
/// substituted while a table is computed keep their values.
pub proof fn law_tables_keep_other_inputs(m: ModelView, sheet: u32, row: i32, column: i32)
    requires
        forall|k: int|
            0 <= k < resolved_tables(m).len() ==> !in_table_range(
                #[trigger] resolved_tables(m)[k],
                sheet,
                row,
                column,
            ),
    ensures
        input_at(computed(m), sheet, row, column) == input_at(m, sheet, row, column),
{
    lemma_resolved_upto_valid(m, m.sheets.len());
    lemma_after_tables_other(m, resolved_tables(m), sheet, row, column);
}

/// The input written into a cell is the one that cell then holds.
proof fn lemma_written_own_input(m: ModelView, r: CellReferenceIndex, v: ValueView)
    requires
        in_range(m, r.sheet, r.row, r.column),
    ensures
        input_at(written(m, r, v), r.sheet, r.row, r.column) == value_input(v),
{
    lemma_own_cell_input(m.sheets[r.sheet as int].cells, r.row, r.column, value_input(v));
}

/// Two workbooks that differ only in their cells resolve the same tables.
pub proof fn lemma_resolved_tables_same(a: ModelView, b: ModelView)
    requires
        same_but_cells(a, b),
    ensures
        resolved_tables(a) == resolved_tables(b),
{
    lemma_resolved_upto_same(a, b, a.sheets.len());
}

proof fn lemma_resolved_upto_same(a: ModelView, b: ModelView, n: nat)
    requires
        same_but_cells(a, b),
    ensures
        resolved_upto(a, n) == resolved_upto(b, n),
    decreases n,
{
    if n > 0 && n <= a.sheets.len() {
        lemma_resolved_upto_same(a, b, (n - 1) as nat);
        let s = (n - 1) as u32;
        assert(a.sheets[n - 1].tables == b.sheets[n - 1].tables);
        lemma_resolved_in_sheet_same(a, b, s, a.sheets[n - 1].tables);
    }
}

proof fn lemma_resolved_in_sheet_same(a: ModelView, b: ModelView, sheet: u32, ts: Seq<DataTableView>)
    requires
        same_but_cells(a, b),
    ensures
        resolved_in_sheet(a, sheet, ts) == resolved_in_sheet(b, sheet, ts),
    decreases ts.len(),
{
    if ts.len() > 0 {
        lemma_resolved_in_sheet_same(a, b, sheet, ts.drop_last());
        let t = ts.last();
        lemma_cell_reference_same(a, b, sheet, t.r1);
        match t.r2 {
            Some(r) => lemma_cell_reference_same(a, b, sheet, r),
            None => {},
        }
    }
}

proof fn lemma_cell_reference_same(a: ModelView, b: ModelView, sheet: u32, r: Seq<char>)
    requires
        same_but_cells(a, b),
    ensures
        cell_reference(a, sheet, r) == cell_reference(b, sheet, r),
{
    match split_reference(r) {
        Some((Some(n), _)) => lemma_sheet_named_same(a.sheets, b.sheets, n, 0),
        _ => {},
    }
}

proof fn lemma_sheet_named_same(a: Seq<SheetView>, b: Seq<SheetView>, name: Seq<char>, i: nat)
    requires
        a.len() == b.len(),
        forall|k: int| 0 <= k < a.len() ==> (#[trigger] a[k]).name == b[k].name,
    ensures
        sheet_named(a, name, i) == sheet_named(b, name, i),
    decreases a.len() - i,
{
    if i < a.len() {
        assert(a[i as int].name == b[i as int].name);
        lemma_sheet_named_same(a, b, name, i + 1);
    }
}

/// The input that holds a value is read back as that value.
proof fn lemma_value_input_reads_back(v: ValueView)
    requires
        wf_value(v),
        !(v is Empty),
    ensures
        value_input(v) matches Some(p) && render_value(p) matches Some(t) && classify(t) == ContentView::Value(v),
{
    let p = value_input(v).unwrap();
    assert(p.drop_last() =~= Seq::<PieceView>::empty());
    assert(render_value(p.drop_last()) == Some(Seq::<char>::empty()));
    match v {
        ValueView::Number(d) => {
            lemma_decimal_text_classifies(d);
            assert(p.last() == PieceView::Text(decimal_text(d)));
            assert(Seq::<char>::empty() + decimal_text(d) =~= decimal_text(d));
        },
        ValueView::Text(t) => {
            assert(Seq::<char>::empty() + (seq!['\''] + t) =~= seq!['\''] + t);
            assert((seq!['\''] + t).skip(1) =~= t);
        },
        ValueView::Boolean(b) => {
            lemma_boolean_text_classifies(b);
            let t: Seq<char> = if b { "TRUE"@ } else { "FALSE"@ };
            assert(Seq::<char>::empty() + t =~= t);
        },
        ValueView::Error(e) => {
            lemma_error_text_classifies(e);
            assert(Seq::<char>::empty() + error_text(e) =~= error_text(e));
        },
        ValueView::Empty => {},
    }
}

/// What a data table writes into a cell reads back as the value written:
/// reading the cell after [`written`] gives that value (nothing for an
/// empty value).
pub proof fn law_written_value_reads_back(m: ModelView, r: CellReferenceIndex, v: ValueView)
    requires
        in_range(m, r.sheet, r.row, r.column),
        wf_value(v),
    ensures
        cell_content(written(m, r, v), r.sheet, r.row, r.column) == if v is Empty {
            ContentView::Empty
        } else {
            ContentView::Value(v)
        },
{
    lemma_written_own_input(m, r, v);
    if !(v is Empty) {
        lemma_value_input_reads_back(v);
    }
}


} // verus!
