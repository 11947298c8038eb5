//! The workbook that an import fills: sheets, cell inputs and styles,
//! column widths and visibility, row heights, and defined names.
//!
//! Cells hold what a user would type ([`InputText`]); evaluating formulas is
//! left to the spreadsheet engine that receives the workbook.

use vstd::prelude::*;

use crate::datatable::{CalcProperties, DataTable, DataTableView, default_calc};
use crate::input::InputText;
use crate::number::PieceView;
use crate::text::str_eq;
use crate::style::{clone_style, default_style, Style, StyleView};

verus! {

/// Highest row number of a sheet.
pub const LAST_ROW: i32 = 1_048_576;

/// Highest column number of a sheet.
pub const LAST_COLUMN: i32 = 16_384;

/// A cell that has an input or a style (1-based row and column).
#[derive(Debug)]
pub struct Cell {
    pub row: i32,
    pub column: i32,
    pub input: Option<InputText>,
    pub style: Option<Style>,
}

/// Width (in characters) and visibility of a column (1-based).
#[derive(Debug, Clone, Copy, PartialEq, Eq, Structural)]
pub struct Column {
    pub column: i32,
    pub width: Option<u8>,
    pub hidden: bool,
}

/// Height of a row (1-based), in Lotus units of 1/32 of a 12-point line.
#[derive(Debug, Clone, Copy, PartialEq, Eq, Structural)]
pub struct Row {
    pub row: i32,
    pub height: u16,
}

/// A sheet of the workbook.
#[derive(Debug)]
pub struct Worksheet {
    pub name: String,
    pub cells: Vec<Cell>,
    pub columns: Vec<Column>,
    pub rows: Vec<Row>,
    pub data_tables: Vec<DataTable>,
}

/// A workbook-scoped defined name and the formula it stands for.
#[derive(Debug)]
pub struct DefinedName {
    pub name: String,
    pub formula: String,
}

/// The workbook filled by an import.
#[derive(Debug)]
pub struct Model {
    pub name: String,
    pub locale: String,
    pub timezone: String,
    pub language: String,
    pub worksheets: Vec<Worksheet>,
    pub defined_names: Vec<DefinedName>,
    pub calc_properties: CalcProperties,
}

pub struct CellView {
    pub row: i32,
    pub column: i32,
    pub input: Option<Seq<PieceView>>,
    pub style: Option<StyleView>,
}

pub struct SheetView {
    pub name: Seq<char>,
    pub cells: Seq<CellView>,
    pub columns: Seq<Column>,
    pub rows: Seq<Row>,
    pub tables: Seq<DataTableView>,
}

/// The content of a [`Model`].
pub struct ModelView {
    pub name: Seq<char>,
    pub locale: Seq<char>,
    pub timezone: Seq<char>,
    pub language: Seq<char>,
    pub sheets: Seq<SheetView>,
    pub names: Seq<(Seq<char>, Seq<char>)>,
    pub calc: CalcProperties,
}

pub open spec fn cell_view(c: Cell) -> CellView {
    CellView {
        row: c.row,
        column: c.column,
        input: match c.input {
            Some(t) => Some(t@),
            None => None,
        },
        style: match c.style {
            Some(s) => Some(s@),
            None => None,
        },
    }
}

pub open spec fn cells_view(cells: Seq<Cell>) -> Seq<CellView> {
    cells.map_values(|c: Cell| cell_view(c))
}

pub open spec fn sheet_view(w: Worksheet) -> SheetView {
    SheetView {
        name: w.name@,
        cells: cells_view(w.cells@),
        columns: w.columns@,
        rows: w.rows@,
        tables: tables_view(w.data_tables@),
    }
}

pub open spec fn tables_view(ts: Seq<DataTable>) -> Seq<DataTableView> {
    ts.map_values(|t: DataTable| t@)
}

impl View for Worksheet {
    type V = SheetView;

    open spec fn view(&self) -> SheetView {
        sheet_view(*self)
    }
}

pub open spec fn sheets_view(ws: Seq<Worksheet>) -> Seq<SheetView> {
    ws.map_values(|w: Worksheet| w@)
}

pub open spec fn names_view(ns: Seq<DefinedName>) -> Seq<(Seq<char>, Seq<char>)> {
    ns.map_values(|d: DefinedName| (d.name@, d.formula@))
}

impl View for Model {
    type V = ModelView;

    open spec fn view(&self) -> ModelView {
        ModelView {
            name: self.name@,
            locale: self.locale@,
            timezone: self.timezone@,
            language: self.language@,
            sheets: sheets_view(self.worksheets@),
            names: names_view(self.defined_names@),
            calc: self.calc_properties,
        }
    }
}

/// Index of the first cell at `(row, column)` at or after `i`.
pub open spec fn find_cell_from(cells: Seq<CellView>, row: i32, column: i32, i: int) -> Option<
    int,
>
    decreases cells.len() - i,
{
    if i < 0 || i >= cells.len() {
        None
    } else if cells[i].row == row && cells[i].column == column {
        Some(i)
    } else {
        find_cell_from(cells, row, column, i + 1)
    }
}

/// Index of the cell at `(row, column)`.
pub open spec fn find_cell(cells: Seq<CellView>, row: i32, column: i32) -> Option<int> {
    find_cell_from(cells, row, column, 0)
}

pub proof fn lemma_find_cell_from(cells: Seq<CellView>, row: i32, column: i32, i: int)
    requires
        0 <= i,
    ensures
        find_cell_from(cells, row, column, i) matches Some(k) ==> i <= k < cells.len()
            && cells[k].row == row && cells[k].column == column,
        find_cell_from(cells, row, column, i) is None ==> forall|k: int|
            i <= k < cells.len() ==> !(#[trigger] cells[k].row == row && cells[k].column
                == column),
    decreases cells.len() - i,
{
    if i < cells.len() && !(cells[i].row == row && cells[i].column == column) {
        lemma_find_cell_from(cells, row, column, i + 1);
    }
}

/// `find_cell_from` reads only where the cells are.
pub proof fn lemma_find_cell_same_places(a: Seq<CellView>, b: Seq<CellView>, row: i32, column: i32, i: int)
    requires
        a.len() == b.len(),
        forall|j: int| 0 <= j < a.len() ==> (#[trigger] a[j]).row == b[j].row && a[j].column == b[j].column,
    ensures
        find_cell_from(a, row, column, i) == find_cell_from(b, row, column, i),
    decreases a.len() - i,
{
    if 0 <= i < a.len() && !(a[i].row == row && a[i].column == column) {
        lemma_find_cell_same_places(a, b, row, column, i + 1);
    }
}

/// A cell added at the end at another place leaves the lookup unchanged.
pub proof fn lemma_find_cell_push(a: Seq<CellView>, x: CellView, row: i32, column: i32, i: int)
    requires
        !(x.row == row && x.column == column),
        0 <= i,
    ensures
        find_cell_from(a.push(x), row, column, i) == find_cell_from(a, row, column, i),
    decreases a.len() - i,
{
    let b = a.push(x);
    if i < a.len() {
        assert(b[i] == a[i]);
        if !(a[i].row == row && a[i].column == column) {
            lemma_find_cell_push(a, x, row, column, i + 1);
        }
    } else if i == a.len() {
        assert(b[i] == x);
        assert(find_cell_from(b, row, column, i + 1) is None);
    }
}

/// Setting or removing the input of one cell leaves the inputs of the other
/// cells as they are.
pub proof fn lemma_other_cell_inputs(cells: Seq<CellView>, row: i32, column: i32, input: Option<Seq<PieceView>>, r: i32, c: i32)
    requires
        !(r == row && c == column),
    ensures
        ({
            let after = match input {
                Some(p) => cells_with_input(cells, row, column, p),
                None => cells_without_input(cells, row, column),
            };
            &&& find_cell(after, r, c) == find_cell(cells, r, c)
            &&& find_cell(cells, r, c) matches Some(k) ==> after[k].input == cells[k].input
        }),
{
    lemma_find_cell_from(cells, row, column, 0);
    lemma_find_cell_from(cells, r, c, 0);
    match find_cell(cells, row, column) {
        Some(k) => {
            let after = match input {
                Some(p) => cells.update(k, CellView { input: Some(p), ..cells[k] }),
                None => cells.update(k, CellView { input: None, ..cells[k] }),
            };
            lemma_find_cell_same_places(after, cells, r, c, 0);
        },
        None => {
            match input {
                Some(p) => {
                    lemma_find_cell_push(cells, CellView { row, column, input: Some(p), style: None }, r, c, 0);
                },
                None => {},
            }
        },
    }
}

proof fn lemma_find_cell_pushed(a: Seq<CellView>, x: CellView, i: int)
    requires
        0 <= i <= a.len(),
        forall|k: int| i <= k < a.len() ==> !(#[trigger] a[k].row == x.row && a[k].column == x.column),
    ensures
        find_cell_from(a.push(x), x.row, x.column, i) == Some(a.len() as int),
    decreases a.len() - i,
{
    let b = a.push(x);
    if i < a.len() {
        assert(b[i] == a[i]);
        lemma_find_cell_pushed(a, x, i + 1);
    } else {
        assert(b[i] == x);
    }
}

/// Setting or removing the input of a cell leaves that cell with that input.
pub proof fn lemma_own_cell_input(cells: Seq<CellView>, row: i32, column: i32, input: Option<Seq<PieceView>>)
    ensures
        ({
            let after = match input {
                Some(p) => cells_with_input(cells, row, column, p),
                None => cells_without_input(cells, row, column),
            };
            match find_cell(after, row, column) {
                Some(k) => after[k].input == input,
                None => input is None,
            }
        }),
{
    let after = match input {
        Some(p) => cells_with_input(cells, row, column, p),
        None => cells_without_input(cells, row, column),
    };
    lemma_find_cell_from(cells, row, column, 0);
    match find_cell(cells, row, column) {
        Some(k) => {
            lemma_find_cell_same_places(after, cells, row, column, 0);
        },
        None => {
            match input {
                Some(p) => {
                    let x = CellView { row, column, input: Some(p), style: None };
                    lemma_find_cell_pushed(cells, x, 0);
                },
                None => {},
            }
        },
    }
}

/// Cells after setting the input of `(row, column)`.
pub open spec fn cells_with_input(
    cells: Seq<CellView>,
    row: i32,
    column: i32,
    input: Seq<PieceView>,
) -> Seq<CellView> {
    match find_cell(cells, row, column) {
        Some(k) => cells.update(k, CellView { input: Some(input), ..cells[k] }),
        None => cells.push(CellView { row, column, input: Some(input), style: None }),
    }
}

/// Cells after setting the style of `(row, column)`.
pub open spec fn cells_with_style(cells: Seq<CellView>, row: i32, column: i32, style: StyleView) -> Seq<
    CellView,
> {
    match find_cell(cells, row, column) {
        Some(k) => cells.update(k, CellView { style: Some(style), ..cells[k] }),
        None => cells.push(CellView { row, column, input: None, style: Some(style) }),
    }
}

/// Cells after the input of `(row, column)` is removed; its style stays.
pub open spec fn cells_without_input(cells: Seq<CellView>, row: i32, column: i32) -> Seq<CellView> {
    match find_cell(cells, row, column) {
        Some(k) => cells.update(k, CellView { input: None, ..cells[k] }),
        None => cells,
    }
}

/// The input of cell `(row, column)` of sheet `sheet`, if it has one.
pub open spec fn input_at(m: ModelView, sheet: u32, row: i32, column: i32) -> Option<Seq<PieceView>> {
    if sheet >= m.sheets.len() {
        None
    } else {
        match find_cell(m.sheets[sheet as int].cells, row, column) {
            Some(k) => m.sheets[sheet as int].cells[k].input,
            None => None,
        }
    }
}

/// Style of `(row, column)`: the one set, else the default style.
pub open spec fn style_at(cells: Seq<CellView>, row: i32, column: i32) -> StyleView {
    match find_cell(cells, row, column) {
        Some(k) => match cells[k].style {
            Some(s) => s,
            None => default_style(),
        },
        None => default_style(),
    }
}

/// Index of the first column entry for `column`.
pub open spec fn find_column(cols: Seq<Column>, column: i32) -> Option<int>
    decreases cols.len(),
{
    if cols.len() == 0 {
        None
    } else {
        match find_column(cols.drop_last(), column) {
            Some(k) => Some(k),
            None => if cols.last().column == column {
                Some(cols.len() - 1)
            } else {
                None
            },
        }
    }
}

/// Columns after an update of the entry of `column` by `f`.
pub open spec fn columns_with(cols: Seq<Column>, column: i32, width: Option<u8>, hidden: Option<bool>) -> Seq<
    Column,
> {
    match find_column(cols, column) {
        Some(k) => cols.update(
            k,
            Column {
                width: match width {
                    Some(w) => Some(w),
                    None => cols[k].width,
                },
                hidden: match hidden {
                    Some(h) => h,
                    None => cols[k].hidden,
                },
                ..cols[k]
            },
        ),
        None => cols.push(
            Column {
                column,
                width,
                hidden: match hidden {
                    Some(h) => h,
                    None => false,
                },
            },
        ),
    }
}

/// Index of the first row entry for `row`.
pub open spec fn find_row(rows: Seq<Row>, row: i32) -> Option<int>
    decreases rows.len(),
{
    if rows.len() == 0 {
        None
    } else {
        match find_row(rows.drop_last(), row) {
            Some(k) => Some(k),
            None => if rows.last().row == row {
                Some(rows.len() - 1)
            } else {
                None
            },
        }
    }
}

/// Rows after setting the height of `row`.
pub open spec fn rows_with(rows: Seq<Row>, row: i32, height: u16) -> Seq<Row> {
    match find_row(rows, row) {
        Some(k) => rows.update(k, Row { row, height }),
        None => rows.push(Row { row, height }),
    }
}

/// A character Excel forbids in sheet names.
pub open spec fn forbidden_sheet_char(c: char) -> bool {
    c == '\\' || c == '/' || c == '?' || c == '*' || c == '[' || c == ']' || c == ':'
}

/// A valid sheet name: 1 to 31 characters, none of `\ / ? * [ ] :`.
pub open spec fn valid_sheet_name(name: Seq<char>) -> bool {
    1 <= name.len() <= 31 && forall|i: int| 0 <= i < name.len() ==> !forbidden_sheet_char(
        #[trigger] name[i],
    )
}

/// Whether a sheet other than `except` is named `name`.
pub open spec fn name_taken(sheets: Seq<SheetView>, name: Seq<char>, except: int) -> bool {
    exists|j: int| 0 <= j < sheets.len() && j != except && #[trigger] sheets[j].name == name
}

/// An empty sheet named `name`.
pub open spec fn empty_sheet(name: Seq<char>) -> SheetView {
    SheetView {
        name,
        cells: Seq::empty(),
        columns: Seq::empty(),
        rows: Seq::empty(),
        tables: Seq::empty(),
    }
}

pub(crate) fn find_cell_exec(cells: &Vec<Cell>, row: i32, column: i32) -> (r: Option<usize>)
    ensures
        find_cell(cells_view(cells@), row, column) == match r {
            Some(k) => Some(k as int),
            None => None,
        },
        r matches Some(k) ==> k < cells@.len(),
{
    proof {
        lemma_find_cell_from(cells_view(cells@), row, column, 0);
    }
    let ghost v = cells_view(cells@);
    let mut i: usize = 0;
    while i < cells.len()
        invariant
            i <= cells@.len(),
            v == cells_view(cells@),
            find_cell(v, row, column) == find_cell_from(v, row, column, i as int),
        decreases cells@.len() - i,
    {
        if cells[i].row == row && cells[i].column == column {
            return Some(i);
        }
        i += 1;
    }
    None
}

fn find_column_exec(cols: &Vec<Column>, column: i32) -> (r: Option<usize>)
    ensures
        find_column(cols@, column) == match r {
            Some(k) => Some(k as int),
            None => None,
        },
        r matches Some(k) ==> k < cols@.len(),
{
    proof {
        lemma_find_column_bounds(cols@, column);
    }
    let mut i: usize = 0;
    while i < cols.len()
        invariant
            i <= cols@.len(),
            find_column(cols@.take(i as int), column) is None,
        decreases cols@.len() - i,
    {
        assert(cols@.take(i + 1).drop_last() =~= cols@.take(i as int));
        if cols[i].column == column {
            proof {
                lemma_find_column_prefix(cols@, column, (i + 1) as nat);
            }
            return Some(i);
        }
        i += 1;
    }
    assert(cols@.take(i as int) =~= cols@);
    None
}

proof fn lemma_find_column_bounds(cols: Seq<Column>, column: i32)
    ensures
        find_column(cols, column) matches Some(k) ==> 0 <= k < cols.len() && cols[k].column == column,
    decreases cols.len(),
{
    if cols.len() > 0 {
        lemma_find_column_bounds(cols.drop_last(), column);
    }
}

proof fn lemma_find_row_bounds(rows: Seq<Row>, row: i32)
    ensures
        find_row(rows, row) matches Some(k) ==> 0 <= k < rows.len() && rows[k].row == row,
    decreases rows.len(),
{
    if rows.len() > 0 {
        lemma_find_row_bounds(rows.drop_last(), row);
    }
}

proof fn lemma_find_column_prefix(cols: Seq<Column>, column: i32, n: nat)
    requires
        n <= cols.len(),
        find_column(cols.take(n as int), column) is Some,
    ensures
        find_column(cols, column) == find_column(cols.take(n as int), column),
    decreases cols.len() - n,
{
    if n < cols.len() {
        assert(cols.take((n + 1) as int).drop_last() =~= cols.take(n as int));
        lemma_find_column_prefix(cols, column, n + 1);
    } else {
        assert(cols.take(n as int) =~= cols);
    }
}

fn find_row_exec(rows: &Vec<Row>, row: i32) -> (r: Option<usize>)
    ensures
        find_row(rows@, row) == match r {
            Some(k) => Some(k as int),
            None => None,
        },
        r matches Some(k) ==> k < rows@.len(),
{
    proof {
        lemma_find_row_bounds(rows@, row);
    }
    let mut i: usize = 0;
    while i < rows.len()
        invariant
            i <= rows@.len(),
            find_row(rows@.take(i as int), row) is None,
        decreases rows@.len() - i,
    {
        assert(rows@.take(i + 1).drop_last() =~= rows@.take(i as int));
        if rows[i].row == row {
            proof {
                lemma_find_row_prefix(rows@, row, (i + 1) as nat);
            }
            return Some(i);
        }
        i += 1;
    }
    assert(rows@.take(i as int) =~= rows@);
    None
}

proof fn lemma_find_row_prefix(rows: Seq<Row>, row: i32, n: nat)
    requires
        n <= rows.len(),
        find_row(rows.take(n as int), row) is Some,
    ensures
        find_row(rows, row) == find_row(rows.take(n as int), row),
    decreases rows.len() - n,
{
    if n < rows.len() {
        assert(rows.take((n + 1) as int).drop_last() =~= rows.take(n as int));
        lemma_find_row_prefix(rows, row, n + 1);
    } else {
        assert(rows.take(n as int) =~= rows);
    }
}

impl Worksheet {
    /// An empty sheet.
    pub fn new(name: String) -> (w: Worksheet)
        ensures
            w@ == empty_sheet(name@),
    {
        let w = Worksheet {
            name,
            cells: Vec::new(),
            columns: Vec::new(),
            rows: Vec::new(),
            data_tables: Vec::new(),
        };
        assert(w@.cells =~= Seq::<CellView>::empty());
        assert(w@.tables =~= Seq::<DataTableView>::empty());
        w
    }

    /// Sets the input of a cell, keeping its style.
    pub fn set_input(&mut self, row: i32, column: i32, input: InputText)
        ensures
            final(self)@ == (SheetView {
                cells: cells_with_input(old(self)@.cells, row, column, input@),
                ..old(self)@
            }),
    {
        let ghost before = self@.cells;
        match find_cell_exec(&self.cells, row, column) {
            Some(k) => {
                let old_cell = self.cells.remove(k);
                let ghost iv = input@;
                self.cells.insert(
                    k,
                    Cell { row: old_cell.row, column: old_cell.column, input: Some(input), style: old_cell.style },
                );
                assert(self@.cells =~= before.update(
                    k as int,
                    CellView { input: Some(iv), ..before[k as int] },
                ));
            },
            None => {
                let ghost iv = input@;
                self.cells.push(Cell { row, column, input: Some(input), style: None });
                assert(self@.cells =~= before.push(
                    CellView { row, column, input: Some(iv), style: None },
                ));
            },
        }
    }

    /// Removes the input of a cell, keeping its style.
    pub fn clear_input(&mut self, row: i32, column: i32)
        ensures
            final(self)@ == (SheetView {
                cells: cells_without_input(old(self)@.cells, row, column),
                ..old(self)@
            }),
    {
        let ghost before = self@.cells;
        match find_cell_exec(&self.cells, row, column) {
            Some(k) => {
                let old_cell = self.cells.remove(k);
                self.cells.insert(
                    k,
                    Cell { row: old_cell.row, column: old_cell.column, input: None, style: old_cell.style },
                );
                assert(self@.cells =~= before.update(k as int, CellView { input: None, ..before[k as int] }));
            },
            None => {
                assert(self@.cells =~= before);
            },
        }
    }

    /// Sets the style of a cell, keeping its input.
    pub fn set_style(&mut self, row: i32, column: i32, style: Style)
        ensures
            final(self)@ == (SheetView {
                cells: cells_with_style(old(self)@.cells, row, column, style@),
                ..old(self)@
            }),
    {
        let ghost before = self@.cells;
        let ghost sv = style@;
        match find_cell_exec(&self.cells, row, column) {
            Some(k) => {
                let old_cell = self.cells.remove(k);
                self.cells.insert(
                    k,
                    Cell { row: old_cell.row, column: old_cell.column, input: old_cell.input, style: Some(style) },
                );
                assert(self@.cells =~= before.update(
                    k as int,
                    CellView { style: Some(sv), ..before[k as int] },
                ));
            },
            None => {
                self.cells.push(Cell { row, column, input: None, style: Some(style) });
                assert(self@.cells =~= before.push(
                    CellView { row, column, input: None, style: Some(sv) },
                ));
            },
        }
    }

    /// The style of a cell (the default style when it has none).
    pub fn style(&self, row: i32, column: i32) -> (s: Style)
        ensures
            s@ == style_at(self@.cells, row, column),
    {
        match find_cell_exec(&self.cells, row, column) {
            Some(k) => {
                assert(self@.cells[k as int] == cell_view(self.cells@[k as int]));
                match &self.cells[k].style {
                    Some(s) => clone_style(s),
                    None => Style::default_style(),
                }
            },
            None => Style::default_style(),
        }
    }

    fn update_column(&mut self, column: i32, width: Option<u8>, hidden: Option<bool>)
        ensures
            final(self)@ == (SheetView {
                columns: columns_with(old(self)@.columns, column, width, hidden),
                ..old(self)@
            }),
    {
        match find_column_exec(&self.columns, column) {
            Some(k) => {
                let c = self.columns[k];
                let nc = Column {
                    column: c.column,
                    width: match width {
                        Some(w) => Some(w),
                        None => c.width,
                    },
                    hidden: match hidden {
                        Some(h) => h,
                        None => c.hidden,
                    },
                };
                self.columns.set(k, nc);
            },
            None => {
                self.columns.push(
                    Column {
                        column,
                        width,
                        hidden: match hidden {
                            Some(h) => h,
                            None => false,
                        },
                    },
                );
            },
        }
    }

    fn set_row(&mut self, row: i32, height: u16)
        ensures
            final(self)@ == (SheetView { rows: rows_with(old(self)@.rows, row, height), ..old(self)@ }),
    {
        match find_row_exec(&self.rows, row) {
            Some(k) => {
                self.rows.set(k, Row { row, height });
            },
            None => {
                self.rows.push(Row { row, height });
            },
        }
    }
}

/// The workbook a fresh model has: one empty sheet, `Sheet1`, no names.
pub open spec fn new_model(name: Seq<char>, locale: Seq<char>, timezone: Seq<char>, language: Seq<char>) -> ModelView {
    ModelView {
        name,
        locale,
        timezone,
        language,
        sheets: seq![empty_sheet("Sheet1"@)],
        names: Seq::empty(),
        calc: default_calc(),
    }
}

impl Model {
    /// A workbook with one empty sheet named `Sheet1`, and the given name,
    /// locale, time zone and language.
    pub fn new_empty(name: &str, locale: &str, timezone: &str, language: &str) -> (m: Model)
        ensures
            m@ == new_model(name@, locale@, timezone@, language@),
    {
        let mut worksheets = Vec::new();
        worksheets.push(Worksheet::new(String::from_str("Sheet1")));
        let m = Model {
            name: String::from_str(name),
            locale: String::from_str(locale),
            timezone: String::from_str(timezone),
            language: String::from_str(language),
            worksheets,
            defined_names: Vec::new(),
            calc_properties: CalcProperties::default_properties(),
        };
        assert(m@.sheets =~= seq![empty_sheet("Sheet1"@)]);
        assert(m@.names =~= Seq::<(Seq<char>, Seq<char>)>::empty());
        m
    }

    fn replace_sheet(&mut self, i: usize, w: Worksheet) -> (old_sheet: Worksheet)
        requires
            i < old(self).worksheets@.len(),
        ensures
            final(self)@ == (ModelView { sheets: old(self)@.sheets.update(i as int, w@), ..old(self)@ }),
            final(self).worksheets@.len() == old(self).worksheets@.len(),
            old_sheet@ == old(self)@.sheets[i as int],
    {
        let ghost before = self@;
        let ghost wv = w@;
        let old_sheet = self.worksheets.remove(i);
        self.worksheets.insert(i, w);
        assert(self@.sheets =~= before.sheets.update(i as int, wv));
        old_sheet
    }

    pub(crate) fn take_sheet(&mut self, i: usize) -> (w: Worksheet)
        requires
            i < old(self).worksheets@.len(),
        ensures
            w@ == old(self)@.sheets[i as int],
            final(self).worksheets@.len() == old(self).worksheets@.len(),
            final(self)@ == (ModelView {
                sheets: old(self)@.sheets.update(i as int, empty_sheet(Seq::empty())),
                ..old(self)@
            }),
    {
        self.replace_sheet(i, Worksheet::new(String::new()))
    }

    pub(crate) fn put_sheet(&mut self, i: usize, w: Worksheet)
        requires
            i < old(self).worksheets@.len(),
        ensures
            final(self)@ == (ModelView { sheets: old(self)@.sheets.update(i as int, w@), ..old(self)@ }),
            final(self).worksheets@.len() == old(self).worksheets@.len(),
    {
        let _ = self.replace_sheet(i, w);
    }

    /// Whether a sheet other than `except` is named `name`.
    pub(crate) fn name_taken_exec(&self, name: &str, except: Option<usize>) -> (r: bool)
        ensures
            r == name_taken(
                self@.sheets,
                name@,
                match except {
                    Some(e) => e as int,
                    None => -1,
                },
            ),
    {
        let ghost ex: int = match except {
            Some(e) => e as int,
            None => -1,
        };
        let mut i: usize = 0;
        while i < self.worksheets.len()
            invariant
                i <= self.worksheets@.len(),
                ex == match except {
                    Some(e) => e as int,
                    None => -1,
                },
                forall|j: int| 0 <= j < i && j != ex ==> #[trigger] self@.sheets[j].name != name@,
            decreases self.worksheets@.len() - i,
        {
            assert(self@.sheets[i as int] == self.worksheets@[i as int]@);
            let skip = match except {
                Some(e) => e == i,
                None => false,
            };
            if !skip && str_eq(self.worksheets[i].name.as_str(), name) {
                assert(self@.sheets[i as int].name == name@ && i != ex);
                return true;
            }
            i += 1;
        }
        false
    }

    /// Renames sheet `sheet`. Fails (changing nothing) when there is no such
    /// sheet, the name is not a valid sheet name, or another sheet has it.
    pub fn rename_sheet_by_index(&mut self, sheet: u32, new_name: &str) -> (r: Result<(), String>)
        ensures
            ((sheet as int) < old(self)@.sheets.len() && valid_sheet_name(new_name@)
                && !name_taken(old(self)@.sheets, new_name@, sheet as int)) ==> r is Ok
                && final(self)@ == (ModelView {
                sheets: old(self)@.sheets.update(
                    sheet as int,
                    SheetView { name: new_name@, ..old(self)@.sheets[sheet as int] },
                ),
                ..old(self)@
            }),
            !((sheet as int) < old(self)@.sheets.len() && valid_sheet_name(new_name@)
                && !name_taken(old(self)@.sheets, new_name@, sheet as int)) ==> r is Err
                && final(self)@ == old(self)@,
    {
        let i = sheet as usize;
        if i >= self.worksheets.len() {
            return Err(String::from_str("Invalid sheet index"));
        }
        if !is_valid_sheet_name(new_name) {
            return Err(String::from_str("Invalid name for a sheet"));
        }
        if self.name_taken_exec(new_name, Some(i)) {
            return Err(String::from_str("A worksheet already exists with that name"));
        }
        let ghost before = self@;
        let w = self.take_sheet(i);
        let Worksheet { name: _, cells, columns, rows, data_tables } = w;
        self.put_sheet(
            i,
            Worksheet { name: String::from_str(new_name), cells, columns, rows, data_tables },
        );
        assert(self@.sheets =~= before.sheets.update(
            i as int,
            SheetView { name: new_name@, ..before.sheets[i as int] },
        ));
        Ok(())
    }

    /// Adds an empty sheet at the end. Fails (changing nothing) when the name
    /// is not a valid sheet name or a sheet has it already.
    pub fn add_sheet(&mut self, name: &str) -> (r: Result<(), String>)
        ensures
            (valid_sheet_name(name@) && !name_taken(old(self)@.sheets, name@, -1)) ==> r is Ok
                && final(self)@ == (ModelView {
                sheets: old(self)@.sheets.push(empty_sheet(name@)),
                ..old(self)@
            }),
            !(valid_sheet_name(name@) && !name_taken(old(self)@.sheets, name@, -1)) ==> r is Err
                && final(self)@ == old(self)@,
            r matches Err(m) ==> m@ == add_sheet_error(name@),
    {
        if !is_valid_sheet_name(name) {
            let mut m = String::from_str("Invalid name for a sheet: '");
            m.append(name);
            m.append("'");
            return Err(m);
        }
        let taken = self.name_taken_exec(name, None);
        if taken {
            let mut m = String::from_str("A worksheet already exists with that name: '");
            m.append(name);
            m.append("'");
            return Err(m);
        }
        let ghost before = self@;
        let w = Worksheet::new(String::from_str(name));
        let ghost wv = w@;
        self.worksheets.push(w);
        assert(self@.sheets =~= before.sheets.push(wv));
        Ok(())
    }

    /// Sets what the user typed into a cell (1-based row and column). Fails
    /// (changing nothing) when there is no such sheet, row or column.
    pub fn set_user_input(&mut self, sheet: u32, row: i32, column: i32, input: InputText) -> (r:
        Result<(), String>)
        ensures
            in_range(old(self)@, sheet, row, column) ==> r is Ok && final(self)@ == (ModelView {
                sheets: old(self)@.sheets.update(
                    sheet as int,
                    SheetView {
                        cells: cells_with_input(
                            old(self)@.sheets[sheet as int].cells,
                            row,
                            column,
                            input@,
                        ),
                        ..old(self)@.sheets[sheet as int]
                    },
                ),
                ..old(self)@
            }),
            !in_range(old(self)@, sheet, row, column) ==> r is Err && final(self)@ == old(self)@,
    {
        let i = sheet as usize;
        if i >= self.worksheets.len() || row < 1 || row > LAST_ROW || column < 1 || column
            > LAST_COLUMN {
            return Err(String::from_str("Invalid cell"));
        }
        let ghost before = self@;
        let ghost iv = input@;
        let mut w = self.take_sheet(i);
        w.set_input(row, column, input);
        self.put_sheet(i, w);
        assert(self@.sheets =~= before.sheets.update(
            i as int,
            SheetView {
                cells: cells_with_input(before.sheets[i as int].cells, row, column, iv),
                ..before.sheets[i as int]
            },
        ));
        Ok(())
    }

    /// Removes the input of a cell (1-based row and column), keeping its
    /// style. Fails (changing nothing) when there is no such sheet, row or
    /// column.
    pub fn clear_cell_contents(&mut self, sheet: u32, row: i32, column: i32) -> (r: Result<(), String>)
        ensures
            in_range(old(self)@, sheet, row, column) ==> r is Ok && final(self)@ == (ModelView {
                sheets: old(self)@.sheets.update(
                    sheet as int,
                    SheetView {
                        cells: cells_without_input(old(self)@.sheets[sheet as int].cells, row, column),
                        ..old(self)@.sheets[sheet as int]
                    },
                ),
                ..old(self)@
            }),
            !in_range(old(self)@, sheet, row, column) ==> r is Err && final(self)@ == old(self)@,
    {
        let i = sheet as usize;
        if i >= self.worksheets.len() || row < 1 || row > LAST_ROW || column < 1 || column
            > LAST_COLUMN {
            return Err(String::from_str("Invalid cell"));
        }
        let ghost before = self@;
        let mut w = self.take_sheet(i);
        w.clear_input(row, column);
        self.put_sheet(i, w);
        assert(self@.sheets =~= before.sheets.update(
            i as int,
            SheetView {
                cells: cells_without_input(before.sheets[i as int].cells, row, column),
                ..before.sheets[i as int]
            },
        ));
        Ok(())
    }

    /// Sets the style of a cell (1-based row and column). Fails (changing
    /// nothing) when there is no such sheet, row or column.
    pub fn set_cell_style(&mut self, sheet: u32, row: i32, column: i32, style: Style) -> (r: Result<
        (),
        String,
    >)
        ensures
            in_range(old(self)@, sheet, row, column) ==> r is Ok && final(self)@ == (ModelView {
                sheets: old(self)@.sheets.update(
                    sheet as int,
                    SheetView {
                        cells: cells_with_style(
                            old(self)@.sheets[sheet as int].cells,
                            row,
                            column,
                            style@,
                        ),
                        ..old(self)@.sheets[sheet as int]
                    },
                ),
                ..old(self)@
            }),
            !in_range(old(self)@, sheet, row, column) ==> r is Err && final(self)@ == old(self)@,
    {
        let i = sheet as usize;
        if i >= self.worksheets.len() || row < 1 || row > LAST_ROW || column < 1 || column
            > LAST_COLUMN {
            return Err(String::from_str("Invalid cell"));
        }
        let ghost before = self@;
        let ghost sv = style@;
        let mut w = self.take_sheet(i);
        w.set_style(row, column, style);
        self.put_sheet(i, w);
        assert(self@.sheets =~= before.sheets.update(
            i as int,
            SheetView {
                cells: cells_with_style(before.sheets[i as int].cells, row, column, sv),
                ..before.sheets[i as int]
            },
        ));
        Ok(())
    }

    /// The style of a cell; the default style where none was set.
    pub fn get_style_for_cell(&self, sheet: u32, row: i32, column: i32) -> (r: Result<Style, String>)
        ensures
            (sheet as int) < self@.sheets.len() ==> (r matches Ok(s) && s@ == style_at(
                self@.sheets[sheet as int].cells,
                row,
                column,
            )),
            (sheet as int) >= self@.sheets.len() ==> r is Err,
    {
        let i = sheet as usize;
        if i >= self.worksheets.len() {
            return Err(String::from_str("Invalid sheet index"));
        }
        Ok(self.worksheets[i].style(row, column))
    }

    fn update_column(&mut self, sheet: u32, column: i32, width: Option<u8>, hidden: Option<bool>) -> (r:
        Result<(), String>)
        ensures
            column_in_range(old(self)@, sheet, column) ==> r is Ok && final(self)@ == (ModelView {
                sheets: old(self)@.sheets.update(
                    sheet as int,
                    SheetView {
                        columns: columns_with(
                            old(self)@.sheets[sheet as int].columns,
                            column,
                            width,
                            hidden,
                        ),
                        ..old(self)@.sheets[sheet as int]
                    },
                ),
                ..old(self)@
            }),
            !column_in_range(old(self)@, sheet, column) ==> r is Err && final(self)@ == old(self)@,
    {
        let i = sheet as usize;
        if i >= self.worksheets.len() || column < 1 || column > LAST_COLUMN {
            return Err(String::from_str("Invalid column"));
        }
        let ghost before = self@;
        let mut w = self.take_sheet(i);
        w.update_column(column, width, hidden);
        self.put_sheet(i, w);
        assert(self@.sheets =~= before.sheets.update(
            i as int,
            SheetView {
                columns: columns_with(before.sheets[i as int].columns, column, width, hidden),
                ..before.sheets[i as int]
            },
        ));
        Ok(())
    }

    /// Sets the width of a column, in characters.
    pub fn set_column_width(&mut self, sheet: u32, column: i32, width: u8) -> (r: Result<(), String>)
        ensures
            column_in_range(old(self)@, sheet, column) ==> r is Ok && final(self)@ == (ModelView {
                sheets: old(self)@.sheets.update(
                    sheet as int,
                    SheetView {
                        columns: columns_with(
                            old(self)@.sheets[sheet as int].columns,
                            column,
                            Some(width),
                            None,
                        ),
                        ..old(self)@.sheets[sheet as int]
                    },
                ),
                ..old(self)@
            }),
            !column_in_range(old(self)@, sheet, column) ==> r is Err && final(self)@ == old(self)@,
    {
        self.update_column(sheet, column, Some(width), None)
    }

    /// Hides or shows a column.
    pub fn set_column_hidden(&mut self, sheet: u32, column: i32, hidden: bool) -> (r: Result<(), String>)
        ensures
            column_in_range(old(self)@, sheet, column) ==> r is Ok && final(self)@ == (ModelView {
                sheets: old(self)@.sheets.update(
                    sheet as int,
                    SheetView {
                        columns: columns_with(
                            old(self)@.sheets[sheet as int].columns,
                            column,
                            None,
                            Some(hidden),
                        ),
                        ..old(self)@.sheets[sheet as int]
                    },
                ),
                ..old(self)@
            }),
            !column_in_range(old(self)@, sheet, column) ==> r is Err && final(self)@ == old(self)@,
    {
        self.update_column(sheet, column, None, Some(hidden))
    }

    /// Sets the height of a row, in Lotus units (1/32 of a 12-point line).
    pub fn set_row_height(&mut self, sheet: u32, row: i32, height: u16) -> (r: Result<(), String>)
        ensures
            row_in_range(old(self)@, sheet, row) ==> r is Ok && final(self)@ == (ModelView {
                sheets: old(self)@.sheets.update(
                    sheet as int,
                    SheetView {
                        rows: rows_with(old(self)@.sheets[sheet as int].rows, row, height),
                        ..old(self)@.sheets[sheet as int]
                    },
                ),
                ..old(self)@
            }),
            !row_in_range(old(self)@, sheet, row) ==> r is Err && final(self)@ == old(self)@,
    {
        let i = sheet as usize;
        if i >= self.worksheets.len() || row < 1 || row > LAST_ROW {
            return Err(String::from_str("Invalid row"));
        }
        let ghost before = self@;
        let mut w = self.take_sheet(i);
        w.set_row(row, height);
        self.put_sheet(i, w);
        assert(self@.sheets =~= before.sheets.update(
            i as int,
            SheetView { rows: rows_with(before.sheets[i as int].rows, row, height), ..before.sheets[i as int] },
        ));
        Ok(())
    }

    /// Adds a workbook-scoped defined name. Fails (changing nothing) when the
    /// name is already defined.
    pub fn new_defined_name(&mut self, name: &str, formula: &str) -> (r: Result<(), String>)
        ensures
            !defined(old(self)@.names, name@) ==> r is Ok && final(self)@ == (ModelView {
                names: old(self)@.names.push((name@, formula@)),
                ..old(self)@
            }),
            defined(old(self)@.names, name@) ==> r is Err && final(self)@ == old(self)@,
    {
        let mut i: usize = 0;
        while i < self.defined_names.len()
            invariant
                i <= self.defined_names@.len(),
                forall|j: int| 0 <= j < i ==> #[trigger] self@.names[j].0 != name@,
            decreases self.defined_names@.len() - i,
        {
            assert(self@.names[i as int] == (
                self.defined_names@[i as int].name@,
                self.defined_names@[i as int].formula@,
            ));
            if str_eq(self.defined_names[i].name.as_str(), name) {
                assert(self@.names[i as int].0 == name@);
                return Err(String::from_str("Defined name already exists"));
            }
            i += 1;
        }
        let ghost before = self@;
        self.defined_names.push(
            DefinedName { name: String::from_str(name), formula: String::from_str(formula) },
        );
        assert(self@.names =~= before.names.push((name@, formula@)));
        Ok(())
    }

    /// A copy of the input of cell `(row, column)` of sheet `sheet`, if it
    /// has one.
    pub fn cell_input(&self, sheet: u32, row: i32, column: i32) -> (r: Option<InputText>)
        ensures
            match input_at(self@, sheet, row, column) {
                Some(p) => r matches Some(t) && t@ == p,
                None => r is None,
            },
    {
        if sheet as usize >= self.worksheets.len() {
            return None;
        }
        let w = &self.worksheets[sheet as usize];
        assert(self@.sheets[sheet as int] == w@);
        match find_cell_exec(&w.cells, row, column) {
            Some(k) => {
                assert(w@.cells[k as int] == cell_view(w.cells@[k as int]));
                match &w.cells[k].input {
                    Some(t) => Some(t.duplicate()),
                    None => None,
                }
            },
            None => None,
        }
    }

    /// Name of sheet `sheet`, if there is such a sheet.
    pub fn sheet_name(&self, sheet: usize) -> (r: Option<String>)
        ensures
            sheet < self@.sheets.len() ==> (r matches Some(s) && s@ == self@.sheets[sheet as int].name),
            sheet >= self@.sheets.len() ==> r is None,
    {
        if sheet < self.worksheets.len() {
            Some(self.worksheets[sheet].name.clone())
        } else {
            None
        }
    }
}

/// Message of a failed [`Model::add_sheet`].
pub open spec fn add_sheet_error(name: Seq<char>) -> Seq<char> {
    if !valid_sheet_name(name) {
        "Invalid name for a sheet: '"@ + name + "'"@
    } else {
        "A worksheet already exists with that name: '"@ + name + "'"@
    }
}

/// Whether `name` is among the defined names.
pub open spec fn defined(names: Seq<(Seq<char>, Seq<char>)>, name: Seq<char>) -> bool {
    exists|j: int| 0 <= j < names.len() && #[trigger] names[j].0 == name
}

pub open spec fn in_range(m: ModelView, sheet: u32, row: i32, column: i32) -> bool {
    (sheet as int) < m.sheets.len() && 1 <= row <= LAST_ROW && 1 <= column <= LAST_COLUMN
}

pub open spec fn column_in_range(m: ModelView, sheet: u32, column: i32) -> bool {
    (sheet as int) < m.sheets.len() && 1 <= column <= LAST_COLUMN
}

pub open spec fn row_in_range(m: ModelView, sheet: u32, row: i32) -> bool {
    (sheet as int) < m.sheets.len() && 1 <= row <= LAST_ROW
}

/// Whether `name` is a valid sheet name (see [`valid_sheet_name`]).
pub fn is_valid_sheet_name(name: &str) -> (r: bool)
    ensures
        r == valid_sheet_name(name@),
{
    let n = name.unicode_len();
    if n < 1 || n > 31 {
        return false;
    }
    let mut i: usize = 0;
    while i < n
        invariant
            n == name@.len(),
            i <= n,
            forall|j: int| 0 <= j < i ==> !forbidden_sheet_char(#[trigger] name@[j]),
        decreases n - i,
    {
        let c = name.get_char(i);
        if c == '\\' || c == '/' || c == '?' || c == '*' || c == '[' || c == ']' || c == ':' {
            return false;
        }
        i += 1;
    }
    true
}

} // verus!
