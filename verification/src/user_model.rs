//! The editing API of a workbook: every change is recorded so that it can
//! be undone and redone, and the workbook's data tables are recomputed
//! after each change.

use vstd::prelude::*;

use crate::calculation::{computed, in_table_range, law_computing_tables_changes_only_cells, law_tables_keep_other_inputs, lemma_resolved_tables_same, resolved_tables, same_but_cells};
use crate::datatable::{after_delete, anchored_at, build_data_table, built_table, calc_with, invalid_sheet_message, no_table_message, opt_view, parse_range, parsed_range, replaced_table, restore_result, sheet_named, split_reference, table_anchored, table_contains, table_containing, table_error, tables_after_set, with_tables, CalcProperties, DataTable, DataTableView};
use crate::engine::{cell_value, formatted};
use crate::input::{text_piece, InputText};
use crate::number::PieceView;
use crate::workbook::{
    cells_with_input, cells_without_input, in_range, input_at, lemma_own_cell_input, new_model, Model, ModelView, SheetView,
};

verus! {

/// One recorded change.
#[derive(Debug)]
pub enum Diff {
    SetCellValue { sheet: u32, row: i32, column: i32, new_value: InputText, old_value: Option<InputText> },
    SetDataTable { sheet: u32, old_value: Option<DataTable>, new_value: DataTable },
    DeleteDataTable { sheet: u32, old_value: DataTable },
    SetCalcProperties { old_value: CalcProperties, new_value: CalcProperties },
}

/// The content of a [`Diff`].
pub enum DiffView {
    SetCellValue {
        sheet: u32,
        row: i32,
        column: i32,
        new_value: Seq<PieceView>,
        old_value: Option<Seq<PieceView>>,
    },
    SetDataTable { sheet: u32, old_value: Option<DataTableView>, new_value: DataTableView },
    DeleteDataTable { sheet: u32, old_value: DataTableView },
    SetCalcProperties { old_value: CalcProperties, new_value: CalcProperties },
}

impl View for Diff {
    type V = DiffView;

    open spec fn view(&self) -> DiffView {
        match self {
            Diff::SetCellValue { sheet, row, column, new_value, old_value } => DiffView::SetCellValue {
                sheet: *sheet,
                row: *row,
                column: *column,
                new_value: new_value@,
                old_value: match old_value {
                    Some(t) => Some(t@),
                    None => None,
                },
            },
            Diff::SetDataTable { sheet, old_value, new_value } => DiffView::SetDataTable {
                sheet: *sheet,
                old_value: match old_value {
                    Some(t) => Some(t@),
                    None => None,
                },
                new_value: new_value@,
            },
            Diff::DeleteDataTable { sheet, old_value } => DiffView::DeleteDataTable {
                sheet: *sheet,
                old_value: old_value@,
            },
            Diff::SetCalcProperties { old_value, new_value } => DiffView::SetCalcProperties {
                old_value: *old_value,
                new_value: *new_value,
            },
        }
    }
}

pub open spec fn diffs_view(ds: Seq<Diff>) -> Seq<DiffView> {
    ds.map_values(|d: Diff| d@)
}

pub open spec fn history_view(s: Seq<Vec<Diff>>) -> Seq<Seq<DiffView>> {
    s.map_values(|ds: Vec<Diff>| diffs_view(ds@))
}

/// A workbook with its history of changes.
pub struct UserModel {
    model: Model,
    undo_stack: Vec<Vec<Diff>>,
    redo_stack: Vec<Vec<Diff>>,
}

/// The content of a [`UserModel`]: the workbook, and the lists of changes
/// that undo and redo take back or apply again, the latest last.
pub struct UserModelView {
    pub model: ModelView,
    pub undo: Seq<Seq<DiffView>>,
    pub redo: Seq<Seq<DiffView>>,
}

impl View for UserModel {
    type V = UserModelView;

    closed spec fn view(&self) -> UserModelView {
        UserModelView {
            model: self.model@,
            undo: history_view(self.undo_stack@),
            redo: history_view(self.redo_stack@),
        }
    }
}

// ---------------------------------------------------------------------------
// What a change does
// ---------------------------------------------------------------------------

/// The workbook with the input of a cell set, or removed for `None`;
/// unchanged for a cell off the workbook.
pub open spec fn with_cell_input(m: ModelView, sheet: u32, row: i32, column: i32, input: Option<Seq<PieceView>>) -> ModelView {
    if in_range(m, sheet, row, column) {
        let s = m.sheets[sheet as int];
        ModelView {
            sheets: m.sheets.update(
                sheet as int,
                SheetView {
                    cells: match input {
                        Some(p) => cells_with_input(s.cells, row, column, p),
                        None => cells_without_input(s.cells, row, column),
                    },
                    ..s
                },
            ),
            ..m
        }
    } else {
        m
    }
}

/// The workbook after table `t` is set on sheet `sheet`, when it can be.
pub open spec fn set_result(m: ModelView, sheet: u32, t: DataTableView) -> ModelView {
    if table_error(m, sheet, t) is None {
        with_tables(m, sheet as int, tables_after_set(m.sheets[sheet as int].tables, t))
    } else {
        m
    }
}

/// The workbook after the table of sheet `sheet` containing `(row,
/// column)` is deleted, when there is one.
pub open spec fn delete_result(m: ModelView, sheet: u32, row: int, column: int) -> ModelView {
    if sheet < m.sheets.len() {
        match table_containing(m.sheets[sheet as int].tables, row, column, 0) {
            Some(k) => after_delete(m, sheet as int, k as int),
            None => m,
        }
    } else {
        m
    }
}

/// The workbook after the table anchored where `t`'s range starts is
/// deleted.
pub open spec fn delete_at_anchor(m: ModelView, sheet: u32, t: DataTableView) -> ModelView {
    match parsed_range(t.range) {
        Some(b) => delete_result(m, sheet, b.1, b.0),
        None => m,
    }
}

/// The workbook with a change taken back.
pub open spec fn undo_one(m: ModelView, d: DiffView) -> ModelView {
    match d {
        DiffView::SetCellValue { sheet, row, column, old_value, .. } => with_cell_input(m, sheet, row, column, old_value),
        DiffView::SetDataTable { sheet, old_value, new_value } => match old_value {
            Some(t) => restore_result(m, sheet, t),
            None => delete_at_anchor(m, sheet, new_value),
        },
        DiffView::DeleteDataTable { sheet, old_value } => restore_result(m, sheet, old_value),
        DiffView::SetCalcProperties { old_value, .. } => ModelView { calc: old_value, ..m },
    }
}

/// The workbook with a change applied again.
pub open spec fn redo_one(m: ModelView, d: DiffView) -> ModelView {
    match d {
        DiffView::SetCellValue { sheet, row, column, new_value, .. } => with_cell_input(m, sheet, row, column, Some(new_value)),
        DiffView::SetDataTable { sheet, new_value, .. } => set_result(m, sheet, new_value),
        DiffView::DeleteDataTable { sheet, old_value } => delete_at_anchor(m, sheet, old_value),
        DiffView::SetCalcProperties { new_value, .. } => ModelView { calc: new_value, ..m },
    }
}

/// The workbook with a list of changes taken back, the last first.
pub open spec fn undo_all(m: ModelView, ds: Seq<DiffView>) -> ModelView
    decreases ds.len(),
{
    if ds.len() == 0 {
        m
    } else {
        undo_all(undo_one(m, ds.last()), ds.drop_last())
    }
}

/// The workbook with a list of changes applied again, in order.
pub open spec fn redo_all(m: ModelView, ds: Seq<DiffView>) -> ModelView
    decreases ds.len(),
{
    if ds.len() == 0 {
        m
    } else {
        redo_one(redo_all(m, ds.drop_last()), ds.last())
    }
}

fn apply_input(model: &mut Model, sheet: u32, row: i32, column: i32, input: Option<InputText>)
    ensures
        final(model)@ == with_cell_input(
            old(model)@,
            sheet,
            row,
            column,
            match input {
                Some(t) => Some(t@),
                None => None,
            },
        ),
{
    match input {
        Some(t) => {
            let _ = model.set_user_input(sheet, row, column, t);
        },
        None => {
            let _ = model.clear_cell_contents(sheet, row, column);
        },
    }
}

fn apply_set(model: &mut Model, sheet: u32, t: DataTable)
    ensures
        final(model)@ == set_result(old(model)@, sheet, t@),
{
    let _ = model.set_data_table(sheet, t);
}

fn apply_delete_at_anchor(model: &mut Model, sheet: u32, t: &DataTable)
    ensures
        final(model)@ == delete_at_anchor(old(model)@, sheet, t@),
{
    match parse_range(t.range.as_str()) {
        Some((left, top, _, _)) => {
            let _ = model.delete_data_table(sheet, top, left);
        },
        None => {},
    }
}

fn apply_undo(model: &mut Model, d: &Diff)
    ensures
        final(model)@ == undo_one(old(model)@, d@),
{
    match d {
        Diff::SetCellValue { sheet, row, column, old_value, .. } => {
            let input = match old_value {
                Some(t) => Some(t.duplicate()),
                None => None,
            };
            apply_input(model, *sheet, *row, *column, input);
        },
        Diff::SetDataTable { sheet, old_value, new_value } => match old_value {
            Some(t) => model.restore_data_table(*sheet, t.duplicate()),
            None => apply_delete_at_anchor(model, *sheet, new_value),
        },
        Diff::DeleteDataTable { sheet, old_value } => model.restore_data_table(*sheet, old_value.duplicate()),
        Diff::SetCalcProperties { old_value, .. } => {
            model.calc_properties = *old_value;
        },
    }
}

fn apply_redo(model: &mut Model, d: &Diff)
    ensures
        final(model)@ == redo_one(old(model)@, d@),
{
    match d {
        Diff::SetCellValue { sheet, row, column, new_value, .. } => {
            apply_input(model, *sheet, *row, *column, Some(new_value.duplicate()));
        },
        Diff::SetDataTable { sheet, new_value, .. } => apply_set(model, *sheet, new_value.duplicate()),
        Diff::DeleteDataTable { sheet, old_value } => apply_delete_at_anchor(model, *sheet, old_value),
        Diff::SetCalcProperties { new_value, .. } => {
            model.calc_properties = *new_value;
        },
    }
}

/// The list of one change.
fn single(d: Diff) -> (ds: Vec<Diff>)
    ensures
        diffs_view(ds@) == seq![d@],
{
    let mut ds = Vec::new();
    ds.push(d);
    assert(diffs_view(ds@) =~= seq![ds@[0]@]);
    ds
}

impl UserModel {
    /// A workbook with one empty sheet named `Sheet1`, and no history.
    pub fn new_empty(name: &str, locale: &str, timezone: &str, language: &str) -> (u: UserModel)
        ensures
            u@.model == new_model(name@, locale@, timezone@, language@),
            u@.undo.len() == 0,
            u@.redo.len() == 0,
    {
        let u = UserModel {
            model: Model::new_empty(name, locale, timezone, language),
            undo_stack: Vec::new(),
            redo_stack: Vec::new(),
        };
        u
    }

    /// The workbook.
    pub fn get_model(&self) -> (m: &Model)
        ensures
            m@ == self@.model,
    {
        &self.model
    }

    /// Records a list of changes: it becomes the latest one undo takes
    /// back, and nothing is left to redo.
    fn push_diff_list(&mut self, ds: Vec<Diff>)
        ensures
            final(self)@.model == old(self)@.model,
            final(self)@.undo == old(self)@.undo.push(diffs_view(ds@)),
            final(self)@.redo.len() == 0,
    {
        let ghost before = self@;
        self.undo_stack.push(ds);
        self.redo_stack = Vec::new();
        assert(history_view(self.undo_stack@) =~= before.undo.push(diffs_view(ds@)));
    }

    fn recompute(&mut self)
        ensures
            final(self)@.model == computed(old(self)@.model),
            final(self)@.undo == old(self)@.undo,
            final(self)@.redo == old(self)@.redo,
    {
        self.model.evaluate();
    }

    /// Sets what the user typed into a cell (1-based row and column),
    /// records the change and recomputes the data tables. Fails (changing
    /// nothing) when there is no such sheet, row or column.
    pub fn set_user_input(&mut self, sheet: u32, row: i32, column: i32, value: &str) -> (r: Result<(), String>)
        ensures
            in_range(old(self)@.model, sheet, row, column) ==> r is Ok && final(self)@ == (UserModelView {
                model: computed(
                    with_cell_input(old(self)@.model, sheet, row, column, Some(text_piece(value@))),
                ),
                undo: old(self)@.undo.push(
                    seq![
                        DiffView::SetCellValue {
                            sheet,
                            row,
                            column,
                            new_value: text_piece(value@),
                            old_value: input_at(old(self)@.model, sheet, row, column),
                        },
                    ],
                ),
                redo: Seq::empty(),
            }),
            !in_range(old(self)@.model, sheet, row, column) ==> r is Err && final(self)@ == old(self)@,
    {
        let old_value = self.model.cell_input(sheet, row, column);
        let ghost ov = input_at(self@.model, sheet, row, column);
        match self.model.set_user_input(sheet, row, column, InputText::from_str(value)) {
            Ok(()) => {},
            Err(e) => return Err(e),
        }
        self.push_diff_list(
            single(
                Diff::SetCellValue {
                    sheet,
                    row,
                    column,
                    new_value: InputText::from_str(value),
                    old_value,
                },
            ),
        );
        self.recompute();
        assert(self@.redo =~= Seq::<Seq<DiffView>>::empty());
        Ok(())
    }

    /// The value of a cell as it is shown (see [`formatted`]).
    pub fn get_formatted_cell_value(&self, sheet: u32, row: i32, column: i32) -> (r: Result<String, String>)
        ensures
            sheet < self@.model.sheets.len() ==> (r matches Ok(s) && s@ == formatted(
                cell_value(self@.model, sheet, row, column),
            )),
            sheet >= self@.model.sheets.len() ==> r is Err,
    {
        self.model.get_formatted_cell_value(sheet, row, column)
    }

    /// The data table of sheet `sheet` whose output range contains `(row,
    /// column)` (see [`Model::get_data_table`]).
    pub fn get_data_table(&self, sheet: u32, row: i32, column: i32) -> (r: Result<Option<DataTable>, String>)
        ensures
            sheet >= self@.model.sheets.len() ==> (r matches Err(e) && e@ == invalid_sheet_message()),
            sheet < self@.model.sheets.len() ==> (r matches Ok(o) && match table_containing(
                self@.model.sheets[sheet as int].tables,
                row as int,
                column as int,
                0,
            ) {
                Some(k) => o matches Some(t) && t@ == self@.model.sheets[sheet as int].tables[k as int],
                None => o is None,
            }),
    {
        self.model.get_data_table(sheet, row, column)
    }

    /// Creates a What-If data table over `range` on sheet `sheet`, or
    /// replaces the one anchored at the same cell; its kind follows from
    /// the input cells given (see [`built_table`]). The change is recorded
    /// and the tables are recomputed. Fails (changing nothing) when no input
    /// cell is given or the table cannot be set (see [`table_error`]).
    pub fn set_data_table(
        &mut self,
        sheet: u32,
        range: &str,
        row_input_cell: Option<&str>,
        column_input_cell: Option<&str>,
    ) -> (r: Result<(), String>)
        ensures
            match built_table(range@, opt_view(row_input_cell), opt_view(column_input_cell)) {
                Err(msg) => r matches Err(e) && e@ == msg && final(self)@ == old(self)@,
                Ok(t) => match table_error(old(self)@.model, sheet, t) {
                    Some(msg) => r matches Err(e) && e@ == msg && final(self)@ == old(self)@,
                    None => r is Ok && final(self)@ == (UserModelView {
                        model: computed(set_result(old(self)@.model, sheet, t)),
                        undo: old(self)@.undo.push(
                            seq![
                                DiffView::SetDataTable {
                                    sheet,
                                    old_value: replaced_table(old(self)@.model.sheets[sheet as int].tables, t),
                                    new_value: t,
                                },
                            ],
                        ),
                        redo: Seq::empty(),
                    }),
                },
            },
    {
        let data_table = build_data_table(range, row_input_cell, column_input_cell)?;
        let copy = data_table.duplicate();
        let old_value = self.model.set_data_table(sheet, copy)?;
        self.push_diff_list(single(Diff::SetDataTable { sheet, old_value, new_value: data_table }));
        self.recompute();
        assert(self@.redo =~= Seq::<Seq<DiffView>>::empty());
        Ok(())
    }

    /// Deletes the data table of sheet `sheet` whose output range contains
    /// `(row, column)`, removing the inputs of its output cells; the change
    /// is recorded and the tables are recomputed. Fails (changing nothing)
    /// when there is no such sheet or table.
    pub fn delete_data_table(&mut self, sheet: u32, row: i32, column: i32) -> (r: Result<(), String>)
        ensures
            sheet >= old(self)@.model.sheets.len() ==> (r matches Err(e) && e@ == invalid_sheet_message()
                && final(self)@ == old(self)@),
            sheet < old(self)@.model.sheets.len() ==> match table_containing(
                old(self)@.model.sheets[sheet as int].tables,
                row as int,
                column as int,
                0,
            ) {
                Some(k) => r is Ok && final(self)@ == (UserModelView {
                    model: computed(after_delete(old(self)@.model, sheet as int, k as int)),
                    undo: old(self)@.undo.push(
                        seq![
                            DiffView::DeleteDataTable {
                                sheet,
                                old_value: old(self)@.model.sheets[sheet as int].tables[k as int],
                            },
                        ],
                    ),
                    redo: Seq::empty(),
                }),
                None => r matches Err(e) && e@ == no_table_message() && final(self)@ == old(self)@,
            },
    {
        let old_value = self.model.delete_data_table(sheet, row, column)?;
        self.push_diff_list(single(Diff::DeleteDataTable { sheet, old_value }));
        self.recompute();
        assert(self@.redo =~= Seq::<Seq<DiffView>>::empty());
        Ok(())
    }

    /// The workbook's iterative-calculation settings.
    pub fn get_iterative_calculation(&self) -> (c: &CalcProperties)
        ensures
            *c == self@.model.calc,
    {
        self.model.get_iterative_calculation()
    }

    /// Turns iterative calculation on or off and, when given, sets the
    /// largest number of passes and the convergence delta (an IEEE double's
    /// bit pattern). The change is recorded and the tables are recomputed.
    pub fn set_iterative_calculation(&mut self, iterate: bool, iterate_count: Option<u32>, iterate_delta: Option<u64>) -> (r:
        Result<(), String>)
        ensures
            r is Ok,
            final(self)@ == (UserModelView {
                model: computed(
                    ModelView {
                        calc: calc_with(old(self)@.model.calc, iterate, iterate_count, iterate_delta),
                        ..old(self)@.model
                    },
                ),
                undo: old(self)@.undo.push(
                    seq![
                        DiffView::SetCalcProperties {
                            old_value: old(self)@.model.calc,
                            new_value: calc_with(old(self)@.model.calc, iterate, iterate_count, iterate_delta),
                        },
                    ],
                ),
                redo: Seq::empty(),
            }),
    {
        let old_value = *self.model.get_iterative_calculation();
        self.model.set_iterative_calculation(iterate, iterate_count, iterate_delta);
        let new_value = *self.model.get_iterative_calculation();
        self.push_diff_list(single(Diff::SetCalcProperties { old_value, new_value }));
        self.recompute();
        assert(self@.redo =~= Seq::<Seq<DiffView>>::empty());
        Ok(())
    }

    /// Takes back the latest recorded list of changes, which redo can then
    /// apply again, and recomputes the tables. Nothing happens when there is
    /// nothing to undo.
    pub fn undo(&mut self) -> (r: Result<(), String>)
        ensures
            r is Ok,
            old(self)@.undo.len() == 0 ==> final(self)@ == old(self)@,
            old(self)@.undo.len() > 0 ==> final(self)@ == (UserModelView {
                model: computed(undo_all(old(self)@.model, old(self)@.undo.last())),
                undo: old(self)@.undo.drop_last(),
                redo: old(self)@.redo.push(old(self)@.undo.last()),
            }),
    {
        let ghost before = self@;
        let ds = match self.undo_stack.pop() {
            Some(ds) => ds,
            None => return Ok(()),
        };
        assert(history_view(self.undo_stack@) =~= before.undo.drop_last());
        let ghost dv = diffs_view(ds@);
        assert(dv == before.undo.last());
        let mut i = ds.len();
        assert(dv.take(i as int) =~= dv);
        while i > 0
            invariant
                i <= ds@.len(),
                dv == diffs_view(ds@),
                undo_all(self.model@, dv.take(i as int)) == undo_all(before.model, dv),
                history_view(self.undo_stack@) == before.undo.drop_last(),
                history_view(self.redo_stack@) == before.redo,
            decreases i,
        {
            assert(dv.take(i as int).drop_last() =~= dv.take(i - 1));
            assert(dv.take(i as int).last() == ds@[i - 1]@);
            apply_undo(&mut self.model, &ds[i - 1]);
            i -= 1;
        }
        assert(dv.take(0) =~= Seq::<DiffView>::empty());
        let ghost r0 = self@.redo;
        self.redo_stack.push(ds);
        assert(history_view(self.redo_stack@) =~= r0.push(dv));
        self.recompute();
        Ok(())
    }

    /// Applies again the latest list of changes taken back, which undo can
    /// then take back again, and recomputes the tables. Nothing happens when
    /// there is nothing to redo.
    pub fn redo(&mut self) -> (r: Result<(), String>)
        ensures
            r is Ok,
            old(self)@.redo.len() == 0 ==> final(self)@ == old(self)@,
            old(self)@.redo.len() > 0 ==> final(self)@ == (UserModelView {
                model: computed(redo_all(old(self)@.model, old(self)@.redo.last())),
                undo: old(self)@.undo.push(old(self)@.redo.last()),
                redo: old(self)@.redo.drop_last(),
            }),
    {
        let ghost before = self@;
        let ds = match self.redo_stack.pop() {
            Some(ds) => ds,
            None => return Ok(()),
        };
        assert(history_view(self.redo_stack@) =~= before.redo.drop_last());
        let ghost dv = diffs_view(ds@);
        assert(dv == before.redo.last());
        let mut i: usize = 0;
        assert(dv.take(0) =~= Seq::<DiffView>::empty());
        while i < ds.len()
            invariant
                i <= ds@.len(),
                dv == diffs_view(ds@),
                self.model@ == redo_all(before.model, dv.take(i as int)),
                history_view(self.undo_stack@) == before.undo,
                history_view(self.redo_stack@) == before.redo.drop_last(),
            decreases ds@.len() - i,
        {
            assert(dv.take(i + 1).drop_last() =~= dv.take(i as int));
            assert(dv.take(i + 1).last() == ds@[i as int]@);
            apply_redo(&mut self.model, &ds[i]);
            i += 1;
        }
        assert(dv.take(i as int) =~= dv);
        let ghost u0 = self@.undo;
        self.undo_stack.push(ds);
        assert(history_view(self.undo_stack@) =~= u0.push(dv));
        self.recompute();
        Ok(())
    }
}

// ---------------------------------------------------------------------------
// Laws
// ---------------------------------------------------------------------------

/// Setting a cell's input changes nothing but cells.
proof fn lemma_with_cell_input_same(m: ModelView, sheet: u32, row: i32, column: i32, input: Option<Seq<PieceView>>)
    ensures
        same_but_cells(with_cell_input(m, sheet, row, column, input), m),
        in_range(m, sheet, row, column) ==> input_at(with_cell_input(m, sheet, row, column, input), sheet, row, column)
            == input,
{
    if in_range(m, sheet, row, column) {
        lemma_own_cell_input(m.sheets[sheet as int].cells, row, column, input);
    }
}

/// Setting the input of a cell outside every table's output range and
/// recomputing leaves the cell with that input.
proof fn lemma_input_survives(m: ModelView, base: ModelView, sheet: u32, row: i32, column: i32, input: Option<Seq<PieceView>>)
    requires
        same_but_cells(m, base),
        in_range(m, sheet, row, column),
        forall|k: int| 0 <= k < resolved_tables(base).len() ==> !in_table_range(#[trigger] resolved_tables(base)[k], sheet, row, column),
    ensures
        input_at(computed(with_cell_input(m, sheet, row, column, input)), sheet, row, column) == input,
        same_but_cells(computed(with_cell_input(m, sheet, row, column, input)), base),
{
    let m1 = with_cell_input(m, sheet, row, column, input);
    lemma_with_cell_input_same(m, sheet, row, column, input);
    assert(same_but_cells(m1, base));
    lemma_resolved_tables_same(m1, base);
    law_tables_keep_other_inputs(m1, sheet, row, column);
    law_computing_tables_changes_only_cells(m1);
    assert(same_but_cells(computed(m1), base));
}

/// Undoing the setting of a cell's input brings back the input the cell
/// had, and redoing it sets the new input again, for a cell outside the
/// output ranges of the workbook's data tables (whose outputs are
/// recomputed after each change).
pub proof fn law_undo_redo_cell_input(m: ModelView, sheet: u32, row: i32, column: i32, value: Seq<char>)
    requires
        in_range(m, sheet, row, column),
        forall|k: int| 0 <= k < resolved_tables(m).len() ==> !in_table_range(#[trigger] resolved_tables(m)[k], sheet, row, column),
    ensures
        ({
            let d = seq![
                DiffView::SetCellValue {
                    sheet,
                    row,
                    column,
                    new_value: text_piece(value),
                    old_value: input_at(m, sheet, row, column),
                },
            ];
            let after = computed(with_cell_input(m, sheet, row, column, Some(text_piece(value))));
            let undone = computed(undo_all(after, d));
            let redone = computed(redo_all(undone, d));
            &&& input_at(after, sheet, row, column) == Some(text_piece(value))
            &&& input_at(undone, sheet, row, column) == input_at(m, sheet, row, column)
            &&& input_at(redone, sheet, row, column) == Some(text_piece(value))
        }),
{
    let old_input = input_at(m, sheet, row, column);
    let new_input = Some(text_piece(value));
    let d = seq![DiffView::SetCellValue { sheet, row, column, new_value: text_piece(value), old_value: old_input }];
    assert(same_but_cells(m, m));
    lemma_input_survives(m, m, sheet, row, column, new_input);
    let after = computed(with_cell_input(m, sheet, row, column, new_input));
    assert(d.drop_last() =~= Seq::<DiffView>::empty());
    assert(undo_all(after, d) == with_cell_input(after, sheet, row, column, old_input)) by {
        reveal_with_fuel(undo_all, 2);
    }
    lemma_input_survives(after, m, sheet, row, column, old_input);
    let undone = computed(undo_all(after, d));
    assert(redo_all(undone, d) == with_cell_input(undone, sheet, row, column, new_input)) by {
        reveal_with_fuel(redo_all, 2);
    }
    lemma_input_survives(undone, m, sheet, row, column, new_input);
}

/// Setting the iterative-calculation settings, then undoing, gives back
/// the settings before; redoing gives the new settings again.
pub proof fn law_undo_redo_calculation_settings(m: ModelView, iterate: bool, count: Option<u32>, delta: Option<u64>)
    ensures
        ({
            let new_calc = calc_with(m.calc, iterate, count, delta);
            let d = seq![DiffView::SetCalcProperties { old_value: m.calc, new_value: new_calc }];
            let after = computed(ModelView { calc: new_calc, ..m });
            let undone = computed(undo_all(after, d));
            let redone = computed(redo_all(undone, d));
            &&& after.calc == new_calc
            &&& undone.calc == m.calc
            &&& redone.calc == new_calc
        }),
{
    let new_calc = calc_with(m.calc, iterate, count, delta);
    let d = seq![DiffView::SetCalcProperties { old_value: m.calc, new_value: new_calc }];
    let set = ModelView { calc: new_calc, ..m };
    law_computing_tables_changes_only_cells(set);
    let after = computed(set);
    assert(d.drop_last() =~= Seq::<DiffView>::empty());
    let u = undo_all(after, d);
    assert(u == undo_one(after, d.last())) by {
        reveal_with_fuel(undo_all, 2);
    }
    law_computing_tables_changes_only_cells(u);
    let undone = computed(u);
    let r = redo_all(undone, d);
    assert(r == redo_one(undone, d.last())) by {
        reveal_with_fuel(redo_all, 2);
    }
    law_computing_tables_changes_only_cells(r);
}

proof fn lemma_sheet_named_same_names(a: Seq<SheetView>, b: Seq<SheetView>, name: Seq<char>, i: nat)
    requires
        a.len() == b.len(),
        forall|j: int| 0 <= j < a.len() ==> (#[trigger] a[j]).name == b[j].name,
    ensures
        sheet_named(a, name, i) == sheet_named(b, name, i),
    decreases a.len() - i,
{
    if i < a.len() && i <= u32::MAX {
        assert(a[i as int].name == b[i as int].name);
        lemma_sheet_named_same_names(a, b, name, i + 1);
    }
}

/// Table checks read only the number and names of the sheets.
proof fn lemma_table_error_same_names(a: ModelView, b: ModelView, sheet: u32, t: DataTableView)
    requires
        a.sheets.len() == b.sheets.len(),
        forall|j: int| 0 <= j < a.sheets.len() ==> (#[trigger] a.sheets[j]).name == b.sheets[j].name,
    ensures
        table_error(a, sheet, t) == table_error(b, sheet, t),
{
    match split_reference(t.r1) {
        Some((Some(n), _)) => lemma_sheet_named_same_names(a.sheets, b.sheets, n, 0),
        _ => {},
    }
    match t.r2 {
        Some(r2) => match split_reference(r2) {
            Some((Some(n), _)) => lemma_sheet_named_same_names(a.sheets, b.sheets, n, 0),
            _ => {},
        },
        None => {},
    }
}

proof fn lemma_anchored_after_update(ts: Seq<DataTableView>, top: int, left: int, i: nat, k: nat, t: DataTableView)
    requires
        table_anchored(ts, top, left, i) == Some(k),
        anchored_at(t, top, left),
    ensures
        table_anchored(ts.update(k as int, t), top, left, i) == Some(k),
    decreases ts.len() - i,
{
    let u = ts.update(k as int, t);
    if i < ts.len() {
        if anchored_at(ts[i as int], top, left) {
            assert(i == k);
            assert(u[i as int] == t);
        } else {
            crate::datatable::lemma_table_anchored(ts, top, left, i + 1);
            assert(i != k);
            assert(u[i as int] == ts[i as int]);
            lemma_anchored_after_update(ts, top, left, i + 1, k, t);
        }
    }
}

proof fn lemma_containing_after_push(ts: Seq<DataTableView>, row: int, column: int, i: nat, t: DataTableView)
    requires
        table_containing(ts, row, column, i) is None,
        table_contains(t, row, column),
        i <= ts.len(),
    ensures
        table_containing(ts.push(t), row, column, i) == Some(ts.len()),
    decreases ts.len() - i,
{
    let p = ts.push(t);
    if i < ts.len() {
        assert(p[i as int] == ts[i as int]);
        lemma_containing_after_push(ts, row, column, i + 1, t);
    } else {
        assert(p[i as int] == t);
    }
}

/// Undoing the creation of a data table gives the sheet back the tables it
/// had: the replaced table takes its place again, or the new table is
/// removed. For a new table this needs that no earlier table covers its
/// top-left cell (undo finds the table to remove by that cell).
pub proof fn law_undo_set_data_table(m: ModelView, sheet: u32, t: DataTableView)
    requires
        table_error(m, sheet, t) is None,
        match replaced_table(m.sheets[sheet as int].tables, t) {
            Some(_) => true,
            None => table_containing(
                m.sheets[sheet as int].tables,
                parsed_range(t.range).unwrap().1,
                parsed_range(t.range).unwrap().0,
                0,
            ) is None,
        },
    ensures
        ({
            let d = seq![
                DiffView::SetDataTable {
                    sheet,
                    old_value: replaced_table(m.sheets[sheet as int].tables, t),
                    new_value: t,
                },
            ];
            computed(undo_all(computed(set_result(m, sheet, t)), d)).sheets[sheet as int].tables
                == m.sheets[sheet as int].tables
        }),
{
    let ts = m.sheets[sheet as int].tables;
    let b = parsed_range(t.range).unwrap();
    let d = seq![
        DiffView::SetDataTable {
            sheet,
            old_value: replaced_table(ts, t),
            new_value: t,
        },
    ];
    let set = set_result(m, sheet, t);
    law_computing_tables_changes_only_cells(set);
    let after = computed(set);
    assert(after.sheets[sheet as int].tables == tables_after_set(ts, t));
    assert(d.drop_last() =~= Seq::<DiffView>::empty());
    let u = undo_all(after, d);
    assert(u == undo_one(after, d.last())) by {
        reveal_with_fuel(undo_all, 2);
    }
    crate::datatable::lemma_table_anchored(ts, b.1, b.0, 0);
    match table_anchored(ts, b.1, b.0, 0) {
        Some(k) => {
            let o = ts[k as int];
            assert(replaced_table(ts, t) == Some(o));
            assert forall|j: int| 0 <= j < after.sheets.len() implies (#[trigger] after.sheets[j]).name
                == m.sheets[j].name by {
                assert(after.sheets[j].name == set.sheets[j].name);
            }
            lemma_table_error_same_names(after, m, sheet, o);
            let ts1 = ts.update(k as int, t);
            lemma_anchored_after_update(ts, b.1, b.0, 0, k, t);
            assert(parsed_range(o.range) matches Some(ob) && ob.1 == b.1 && ob.0 == b.0);
            assert(tables_after_set(ts1, o) =~= ts);
            assert(u.sheets[sheet as int].tables == ts);
        },
        None => {
            assert(replaced_table(ts, t) is None);
            let ts1 = ts.push(t);
            lemma_containing_after_push(ts, b.1, b.0, 0, t);
            assert(ts1.remove(ts.len() as int) =~= ts);
            assert(u.sheets[sheet as int].tables == ts);
        },
    }
    law_computing_tables_changes_only_cells(u);
}

/// Undoing the deletion of a data table puts the table back on its sheet
/// (after the tables that remained), when no remaining table is anchored
/// at its top-left cell.
pub proof fn law_undo_delete_data_table(m: ModelView, sheet: u32, k: int)
    requires
        sheet < m.sheets.len(),
        0 <= k < m.sheets[sheet as int].tables.len(),
        parsed_range(m.sheets[sheet as int].tables[k].range) is Some,
        table_anchored(
            m.sheets[sheet as int].tables.remove(k),
            parsed_range(m.sheets[sheet as int].tables[k].range).unwrap().1,
            parsed_range(m.sheets[sheet as int].tables[k].range).unwrap().0,
            0,
        ) is None,
    ensures
        ({
            let t = m.sheets[sheet as int].tables[k];
            let d = seq![DiffView::DeleteDataTable { sheet, old_value: t }];
            computed(undo_all(computed(after_delete(m, sheet as int, k)), d)).sheets[sheet as int].tables
                == m.sheets[sheet as int].tables.remove(k).push(t)
        }),
{
    let t = m.sheets[sheet as int].tables[k];
    let d = seq![DiffView::DeleteDataTable { sheet, old_value: t }];
    let del = after_delete(m, sheet as int, k);
    law_computing_tables_changes_only_cells(del);
    let after = computed(del);
    assert forall|j: int| 0 <= j < after.sheets.len() implies (#[trigger] after.sheets[j]).name
        == m.sheets[j].name by {
        assert(after.sheets[j].name == del.sheets[j].name);
    }
    lemma_table_error_same_names(after, m, sheet, t);
    assert(d.drop_last() =~= Seq::<DiffView>::empty());
    let u = undo_all(after, d);
    assert(u == undo_one(after, d.last())) by {
        reveal_with_fuel(undo_all, 2);
    }
    assert(u.sheets[sheet as int].tables == m.sheets[sheet as int].tables.remove(k).push(t));
    law_computing_tables_changes_only_cells(u);
}

/// Undoing the creation of a data table and then redoing it gives the
/// sheet the tables the creation gave it (under the conditions of
/// [`law_undo_set_data_table`]).
pub proof fn law_redo_after_undo_set_data_table(m: ModelView, sheet: u32, t: DataTableView)
    requires
        table_error(m, sheet, t) is None,
        match replaced_table(m.sheets[sheet as int].tables, t) {
            Some(_) => true,
            None => table_containing(
                m.sheets[sheet as int].tables,
                parsed_range(t.range).unwrap().1,
                parsed_range(t.range).unwrap().0,
                0,
            ) is None,
        },
    ensures
        ({
            let d = seq![
                DiffView::SetDataTable {
                    sheet,
                    old_value: replaced_table(m.sheets[sheet as int].tables, t),
                    new_value: t,
                },
            ];
            let after = computed(set_result(m, sheet, t));
            let undone = computed(undo_all(after, d));
            computed(redo_all(undone, d)).sheets[sheet as int].tables == after.sheets[sheet as int].tables
        }),
{
    let ts = m.sheets[sheet as int].tables;
    let d = seq![
        DiffView::SetDataTable {
            sheet,
            old_value: replaced_table(ts, t),
            new_value: t,
        },
    ];
    law_undo_set_data_table(m, sheet, t);
    let set = set_result(m, sheet, t);
    law_computing_tables_changes_only_cells(set);
    let after = computed(set);
    assert(d.drop_last() =~= Seq::<DiffView>::empty());
    let u = undo_all(after, d);
    assert(u == undo_one(after, d.last())) by {
        reveal_with_fuel(undo_all, 2);
    }
    law_computing_tables_changes_only_cells(u);
    let undone = computed(u);
    assert forall|j: int| 0 <= j < undone.sheets.len() implies (#[trigger] undone.sheets[j]).name
        == m.sheets[j].name by {
        assert(undone.sheets[j].name == u.sheets[j].name);
        assert(after.sheets[j].name == set.sheets[j].name);
    }
    lemma_table_error_same_names(undone, m, sheet, t);
    let r = redo_all(undone, d);
    assert(r == redo_one(undone, d.last())) by {
        reveal_with_fuel(redo_all, 2);
    }
    law_computing_tables_changes_only_cells(r);
}

} // verus!
