# ironcalc_lotus

A verified reader for Lotus 1-2-3 WK3 workbooks together with a small
spreadsheet model that supports What-If data tables.

The library (`src/`) is written in Verus: every executable function carries a
contract, and the properties that relate several operations are stated and
proved as public proof functions (their names start with `law_`).

## Layout

- `src/text.rs` – column letters, CP437 decoding, sheet and name sanitizing.
- `src/number.rs` – the number formats of WK3 cells (10-byte and packed
  numbers, decimal text of exact values).
- `src/formula.rs` – decoding of compiled WK3 formulas back into formula text.
- `src/record.rs` – the WK3 record stream: framing, each record kind, and the
  import of a whole file into a workbook.
- `src/style.rs` – fonts, fills, borders and alignment taken from the
  format records, and how they land on cells.
- `src/workbook.rs` – the workbook model: sheets, cells, inputs and styles.
- `src/datatable.rs` – data-table definitions, A1 references and ranges,
  calculation settings, and the model operations on data tables.
- `src/engine.rs` – a small exact-decimal formula engine: values, literal
  classification, a formula parser, and evaluation with overrides.
- `src/calculation.rs` – the computation of data tables (one-variable
  column and row tables, two-variable grids) and writing their results.
- `src/user_model.rs` – the user-facing model with undo and redo.
- `app/` – the command-line program: reading files, snapshots on disk,
  conversions that need floating point.
- `tests/` – tests of the library on concrete workbooks.

## Limits of the engine

Numbers are exact decimals `m / 10^s` with `|m| < 10^18` and at most 15
places; results are rounded half away from zero to 15 places and give
`#NUM!` when they leave that range. A binary number read from a file
(a double, an extended double) takes its value rounded to 15 significant
digits, and a packed number with a decimal factor its exact decimal value.
Formulas may hold numbers, same-sheet
references (`A1`, `$B$2`), `+ - * /`, unary signs, parentheses, and `SUM` or
`AVERAGE` of one same-sheet range (`SUM(A1:B3)`); any other formula
evaluates to `#ERROR!`. A circular reference evaluates to `#CIRC!`
unless iterative calculation is on; then the workbook is evaluated in passes
(a circular read sees the previous pass, zero at first) until every number
moves by at most the delta, or the pass limit is reached.
