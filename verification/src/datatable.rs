//! What-If data tables: their descriptors, the references they hold, and
//! how a workbook keeps them.
//!
//! A data table is stored as written in a spreadsheet file: its output
//! range (`"B3:B5"`), its kind, and its input cells as reference strings.
//! References are validated when a table is set and resolved when tables
//! are computed.

use vstd::prelude::*;

use crate::text::{char_is_whitespace, is_whitespace, letters_value, push_char, str_eq};
use crate::workbook::{cell_view, cells_view, Cell, CellView, Model, ModelView, SheetView, LAST_COLUMN, LAST_ROW};

verus! {

/// A What-If data table: output `range`, kind, and input cells. A
/// two-variable table substitutes `r1` (the row input cell) and `r2` (the
/// column input cell); a one-variable table substitutes `r1` alone, taking
/// its values from the row above the range when `row_oriented`, else from
/// the column to its left.
#[derive(Debug, Clone)]
pub struct DataTable {
    pub range: String,
    pub two_dimensional: bool,
    pub row_oriented: bool,
    pub r1: String,
    pub r2: Option<String>,
    pub calculate_always: bool,
}

/// The content of a [`DataTable`].
pub struct DataTableView {
    pub range: Seq<char>,
    pub two_dimensional: bool,
    pub row_oriented: bool,
    pub r1: Seq<char>,
    pub r2: Option<Seq<char>>,
    pub calculate_always: bool,
}

impl View for DataTable {
    type V = DataTableView;

    open spec fn view(&self) -> DataTableView {
        DataTableView {
            range: self.range@,
            two_dimensional: self.two_dimensional,
            row_oriented: self.row_oriented,
            r1: self.r1@,
            r2: match self.r2 {
                Some(s) => Some(s@),
                None => None,
            },
            calculate_always: self.calculate_always,
        }
    }
}

impl DataTable {
    /// A copy of this table.
    pub fn duplicate(&self) -> (t: DataTable)
        ensures
            t@ == self@,
    {
        DataTable {
            range: self.range.clone(),
            two_dimensional: self.two_dimensional,
            row_oriented: self.row_oriented,
            r1: self.r1.clone(),
            r2: match &self.r2 {
                Some(s) => Some(s.clone()),
                None => None,
            },
            calculate_always: self.calculate_always,
        }
    }
}

/// Iterative-calculation settings of a workbook: whether circular
/// references are iterated, the largest number of passes, and the
/// convergence delta, kept as the bit pattern of its IEEE double.
#[derive(Debug, Clone, Copy, PartialEq, Eq, Structural)]
pub struct CalcProperties {
    pub iterate: bool,
    pub iterate_count: u32,
    pub iterate_delta: u64,
}

/// Bit pattern of the double 0.001.
pub const DELTA_0_001: u64 = 0x3F50_624D_D2F1_A9FC;

/// The settings of a new workbook: no iteration, 100 passes, delta 0.001.
pub open spec fn default_calc() -> CalcProperties {
    CalcProperties { iterate: false, iterate_count: 100, iterate_delta: DELTA_0_001 }
}

impl CalcProperties {
    /// The settings of a new workbook (see [`default_calc`]).
    pub fn default_properties() -> (c: CalcProperties)
        ensures
            c == default_calc(),
    {
        CalcProperties { iterate: false, iterate_count: 100, iterate_delta: DELTA_0_001 }
    }
}

/// The settings after [`Model::set_iterative_calculation`]: `iterate` is
/// set, and the count and delta when given.
pub open spec fn calc_with(c: CalcProperties, iterate: bool, count: Option<u32>, delta: Option<u64>) -> CalcProperties {
    CalcProperties {
        iterate,
        iterate_count: match count {
            Some(n) => n,
            None => c.iterate_count,
        },
        iterate_delta: match delta {
            Some(d) => d,
            None => c.iterate_delta,
        },
    }
}

// ---------------------------------------------------------------------------
// Building a descriptor
// ---------------------------------------------------------------------------

pub open spec fn missing_inputs_message() -> Seq<char> {
    "A data table needs a row input cell, a column input cell, or both"@
}

/// The table described by its range and input cells: both inputs make a
/// two-variable table, the row input alone a row-oriented one-variable
/// table, the column input alone a column-oriented one; no input is an
/// error.
pub open spec fn built_table(range: Seq<char>, row_input: Option<Seq<char>>, column_input: Option<Seq<char>>) -> Result<
    DataTableView,
    Seq<char>,
> {
    match (row_input, column_input) {
        (Some(r), Some(c)) => Ok(
            DataTableView {
                range,
                two_dimensional: true,
                row_oriented: false,
                r1: r,
                r2: Some(c),
                calculate_always: false,
            },
        ),
        (Some(r), None) => Ok(
            DataTableView {
                range,
                two_dimensional: false,
                row_oriented: true,
                r1: r,
                r2: None,
                calculate_always: false,
            },
        ),
        (None, Some(c)) => Ok(
            DataTableView {
                range,
                two_dimensional: false,
                row_oriented: false,
                r1: c,
                r2: None,
                calculate_always: false,
            },
        ),
        (None, None) => Err(missing_inputs_message()),
    }
}

pub open spec fn opt_view(o: Option<&str>) -> Option<Seq<char>> {
    match o {
        Some(s) => Some(s@),
        None => None,
    }
}

/// Builds the descriptor of a table over `range` (see [`built_table`]).
pub fn build_data_table(range: &str, row_input_cell: Option<&str>, column_input_cell: Option<&str>) -> (r:
    Result<DataTable, String>)
    ensures
        match built_table(range@, opt_view(row_input_cell), opt_view(column_input_cell)) {
            Ok(t) => r matches Ok(x) && x@ == t,
            Err(m) => r matches Err(x) && x@ == m,
        },
{
    match (row_input_cell, column_input_cell) {
        (Some(row_input), Some(column_input)) => Ok(
            DataTable {
                range: String::from_str(range),
                two_dimensional: true,
                row_oriented: false,
                r1: String::from_str(row_input),
                r2: Some(String::from_str(column_input)),
                calculate_always: false,
            },
        ),
        (Some(row_input), None) => Ok(
            DataTable {
                range: String::from_str(range),
                two_dimensional: false,
                row_oriented: true,
                r1: String::from_str(row_input),
                r2: None,
                calculate_always: false,
            },
        ),
        (None, Some(column_input)) => Ok(
            DataTable {
                range: String::from_str(range),
                two_dimensional: false,
                row_oriented: false,
                r1: String::from_str(column_input),
                r2: None,
                calculate_always: false,
            },
        ),
        (None, None) => Err(
            String::from_str("A data table needs a row input cell, a column input cell, or both"),
        ),
    }
}

// ---------------------------------------------------------------------------
// A1 references and ranges
// ---------------------------------------------------------------------------

pub open spec fn is_upper_letter(c: char) -> bool {
    'A' <= c <= 'Z'
}

pub open spec fn is_digit(c: char) -> bool {
    '0' <= c <= '9'
}

/// `c` in upper case when it is an ASCII lower-case letter.
pub open spec fn ascii_upper(c: char) -> char {
    if 'a' <= c <= 'z' {
        ((c as u32) - 32) as char
    } else {
        c
    }
}

/// `s` with its ASCII letters in upper case.
pub open spec fn upper_text(s: Seq<char>) -> Seq<char> {
    s.map_values(|c: char| ascii_upper(c))
}

pub(crate) fn to_ascii_upper(s: &str) -> (out: String)
    ensures
        out@ == upper_text(s@),
{
    let n = s.unicode_len();
    let mut out = String::new();
    let mut i: usize = 0;
    while i < n
        invariant
            n == s@.len(),
            i <= n,
            out@ == upper_text(s@.take(i as int)),
        decreases n - i,
    {
        let c = s.get_char(i);
        let u = if 'a' <= c && c <= 'z' {
            ((c as u32 - 32) as u8) as char
        } else {
            c
        };
        assert(u == ascii_upper(c));
        push_char(&mut out, u);
        i += 1;
        assert(upper_text(s@.take(i as int)) =~= upper_text(s@.take(i - 1)).push(u));
    }
    assert(s@.take(n as int) =~= s@);
    out
}

/// End of the run of upper-case letters that starts at `i`.
pub open spec fn letters_end(s: Seq<char>, i: nat) -> nat
    decreases s.len() - i,
{
    if i < s.len() && is_upper_letter(s[i as int]) {
        letters_end(s, i + 1)
    } else {
        i
    }
}

/// Value of a sequence of decimal digits.
pub open spec fn digits_value(s: Seq<char>) -> int
    decreases s.len(),
{
    if s.len() == 0 {
        0
    } else {
        digits_value(s.drop_last()) * 10 + (s.last() as int - 48)
    }
}

/// Start of the letters of an A1 reference: after an optional `$`.
pub open spec fn a1_letters_start(s: Seq<char>) -> nat {
    if s.len() > 0 && s[0] == '$' {
        1
    } else {
        0
    }
}

/// End of the letters of an A1 reference.
pub open spec fn a1_letters_end(s: Seq<char>) -> nat {
    letters_end(s, a1_letters_start(s))
}

/// Start of the digits of an A1 reference: after the letters and an
/// optional `$`.
pub open spec fn a1_digits_start(s: Seq<char>) -> nat {
    if a1_letters_end(s) < s.len() && s[a1_letters_end(s) as int] == '$' {
        a1_letters_end(s) + 1
    } else {
        a1_letters_end(s)
    }
}

pub open spec fn all_digits(d: Seq<char>) -> bool {
    forall|i: int| 0 <= i < d.len() ==> is_digit(#[trigger] d[i])
}

/// Row and column (both 1-based) of an upper-case A1 reference: an optional
/// `$`, one to three letters, an optional `$`, and decimal digits; the row
/// and column must lie on a sheet.
pub open spec fn parsed_a1(s: Seq<char>) -> Option<(int, int)> {
    let a = a1_letters_start(s);
    let b = a1_letters_end(s);
    let digits = s.subrange(a1_digits_start(s) as int, s.len() as int);
    let row = digits_value(digits);
    let column = letters_value(s.subrange(a as int, b as int)) + 1;
    if b == a || b > a + 3 || digits.len() == 0 || !all_digits(digits) {
        None
    } else if 1 <= row <= LAST_ROW && column <= LAST_COLUMN {
        Some((row, column))
    } else {
        None
    }
}

proof fn lemma_letters_end(s: Seq<char>, i: nat)
    requires
        i <= s.len(),
    ensures
        i <= letters_end(s, i) <= s.len(),
        forall|k: int| i <= k < letters_end(s, i) ==> is_upper_letter(#[trigger] s[k]),
        letters_end(s, i) < s.len() ==> !is_upper_letter(s[letters_end(s, i) as int]),
    decreases s.len() - i,
{
    if i < s.len() && is_upper_letter(s[i as int]) {
        lemma_letters_end(s, i + 1);
    }
}

proof fn lemma_digits_value_nonneg(s: Seq<char>)
    requires
        forall|i: int| 0 <= i < s.len() ==> is_digit(#[trigger] s[i]),
    ensures
        digits_value(s) >= 0,
    decreases s.len(),
{
    if s.len() > 0 {
        lemma_digits_value_nonneg(s.drop_last());
    }
}

proof fn lemma_digits_value_grows(s: Seq<char>, n: nat)
    requires
        n <= s.len(),
        forall|i: int| 0 <= i < s.len() ==> is_digit(#[trigger] s[i]),
    ensures
        digits_value(s.take(n as int)) <= digits_value(s),
    decreases s.len() - n,
{
    if n < s.len() {
        lemma_digits_value_grows(s, n + 1);
        assert(s.take(n + 1int).drop_last() =~= s.take(n as int));
        lemma_digits_value_nonneg(s.take(n as int));
    } else {
        assert(s.take(n as int) =~= s);
    }
}

pub proof fn lemma_letters_value_bound(s: Seq<char>)
    requires
        s.len() <= 3,
        forall|i: int| 0 <= i < s.len() ==> is_upper_letter(#[trigger] s[i]),
    ensures
        s.len() == 0 ==> letters_value(s) == -1,
        s.len() >= 1 ==> 0 <= letters_value(s),
        s.len() <= 1 ==> letters_value(s) <= 25,
        s.len() <= 2 ==> letters_value(s) <= 701,
        letters_value(s) <= 18277,
    decreases s.len(),
{
    if s.len() > 0 {
        lemma_letters_value_bound(s.drop_last());
    }
}

/// Parses an upper-case A1 reference (see [`parsed_a1`]) into its 1-based
/// row and column.
pub fn parse_a1(s: &str) -> (r: Option<(i32, i32)>)
    ensures
        match parsed_a1(s@) {
            Some((row, column)) => r matches Some((x, y)) && x == row && y == column,
            None => r is None,
        },
{
    let n = s.unicode_len();
    let a: usize = if n > 0 && s.get_char(0) == '$' {
        1
    } else {
        0
    };
    let mut b: usize = a;
    let mut col: i32 = -1;
    while b < n && b < a + 3 && 'A' <= s.get_char(b) && s.get_char(b) <= 'Z'
        invariant
            n == s@.len(),
            a <= b <= n,
            b <= a + 3,
            a <= 1,
            forall|k: int| a <= k < b ==> is_upper_letter(#[trigger] s@[k]),
            col == letters_value(s@.subrange(a as int, b as int)),
            -1 <= col <= 18277,
        decreases n - b,
    {
        let c = s.get_char(b);
        proof {
            assert(s@.subrange(a as int, b + 1).drop_last() =~= s@.subrange(a as int, b as int));
            lemma_letters_value_bound(s@.subrange(a as int, b + 1));
        }
        col = (col + 1) * 26 + (c as u32 - 65) as i32;
        b += 1;
    }
    proof {
        lemma_letters_end(s@, a as nat);
    }
    let ghost e = letters_end(s@, a as nat);
    if b == a || (b < n && 'A' <= s.get_char(b) && s.get_char(b) <= 'Z') {
        proof {
            if b == a {
                if e > a {
                    assert(is_upper_letter(s@[a as int]));
                }
            } else {
                if e <= b {
                    assert(is_upper_letter(s@[e as int]));
                }
            }
        }
        return None;
    }
    assert(e == b) by {
        if e > b {
            assert(is_upper_letter(s@[b as int]));
        }
        if e < b {
            assert(is_upper_letter(s@[e as int]));
        }
    }
    let c: usize = if b < n && s.get_char(b) == '$' {
        b + 1
    } else {
        b
    };
    if c >= n {
        return None;
    }
    let ghost digits = s@.subrange(c as int, n as int);
    let mut i: usize = c;
    let mut row: i32 = 0;
    while i < n
        invariant
            n == s@.len(),
            c < n,
            c <= i <= n,
            digits == s@.subrange(c as int, n as int),
            a == a1_letters_start(s@),
            b == a1_letters_end(s@),
            a < b <= a + 3,
            c == a1_digits_start(s@),
            col == letters_value(s@.subrange(a as int, b as int)),
            forall|k: int| c <= k < i ==> is_digit(#[trigger] s@[k]),
            row == digits_value(s@.subrange(c as int, i as int)),
            0 <= row <= LAST_ROW,
        decreases n - i,
    {
        let d = s.get_char(i);
        if !('0' <= d && d <= '9') {
            assert(!is_digit(digits[i - c]));
            return None;
        }
        assert(s@.subrange(c as int, i + 1).drop_last() =~= s@.subrange(c as int, i as int));
        let next: i32 = row * 10 + (d as u32 - 48) as i32;
        if next > LAST_ROW {
            proof {
                if all_digits(digits) {
                    assert(digits.take((i + 1 - c) as int) =~= s@.subrange(c as int, i + 1));
                    lemma_digits_value_grows(digits, (i + 1 - c) as nat);
                }
            }
            return None;
        }
        row = next;
        i += 1;
    }
    assert(s@.subrange(c as int, i as int) =~= digits);
    if row < 1 || col + 1 > LAST_COLUMN {
        return None;
    }
    Some((row, col + 1))
}

/// Index of the first `c` in `s` at or after `i`.
pub open spec fn index_from(s: Seq<char>, c: char, i: nat) -> Option<nat>
    decreases s.len() - i,
{
    if i >= s.len() {
        None
    } else if s[i as int] == c {
        Some(i)
    } else {
        index_from(s, c, i + 1)
    }
}

/// Index of the last `c` in `s` before `j`.
pub open spec fn last_index_before(s: Seq<char>, c: char, j: nat) -> Option<nat>
    decreases j,
{
    if j == 0 || j > s.len() {
        None
    } else if s[j - 1] == c {
        Some((j - 1) as nat)
    } else {
        last_index_before(s, c, (j - 1) as nat)
    }
}

proof fn lemma_index_from(s: Seq<char>, c: char, i: nat)
    ensures
        index_from(s, c, i) matches Some(k) ==> i <= k < s.len() && s[k as int] == c,
    decreases s.len() - i,
{
    if i < s.len() && s[i as int] != c {
        lemma_index_from(s, c, i + 1);
    }
}

proof fn lemma_last_index_before(s: Seq<char>, c: char, j: nat)
    ensures
        last_index_before(s, c, j) matches Some(k) ==> k < j && k < s.len() && s[k as int] == c,
    decreases j,
{
    if 0 < j <= s.len() && s[j - 1] != c {
        lemma_last_index_before(s, c, (j - 1) as nat);
    }
}

fn find_char(s: &str, c: char) -> (r: Option<usize>)
    ensures
        index_from(s@, c, 0) == match r {
            Some(k) => Some(k as nat),
            None => None::<nat>,
        },
{
    let n = s.unicode_len();
    let mut i: usize = 0;
    while i < n
        invariant
            n == s@.len(),
            i <= n,
            index_from(s@, c, 0) == index_from(s@, c, i as nat),
        decreases n - i,
    {
        if s.get_char(i) == c {
            return Some(i);
        }
        i += 1;
    }
    None
}

fn find_last_char(s: &str, c: char) -> (r: Option<usize>)
    ensures
        last_index_before(s@, c, s@.len()) == match r {
            Some(k) => Some(k as nat),
            None => None::<nat>,
        },
{
    let n = s.unicode_len();
    let mut j: usize = n;
    while j > 0
        invariant
            n == s@.len(),
            j <= n,
            last_index_before(s@, c, n as nat) == last_index_before(s@, c, j as nat),
        decreases j,
    {
        if s.get_char(j - 1) == c {
            return Some(j - 1);
        }
        j -= 1;
    }
    None
}

/// Range bounds `(left, top, right, bottom)` (1-based) of `A1:B2`; the two
/// corners are read case-insensitively as A1 references.
pub open spec fn parsed_range(s: Seq<char>) -> Option<(int, int, int, int)> {
    match index_from(s, ':', 0) {
        None => None,
        Some(k) => match (parsed_a1(upper_text(s.take(k as int))), parsed_a1(upper_text(s.skip(k + 1int)))) {
            (Some((r1, c1)), Some((r2, c2))) => Some((c1, r1, c2, r2)),
            _ => None,
        },
    }
}

/// Bounds `(left, top, right, bottom)` of a range such as `B3:D5`.
pub fn parse_range(s: &str) -> (r: Option<(i32, i32, i32, i32)>)
    ensures
        match parsed_range(s@) {
            Some((l, t, rt, b)) => r matches Some((x, y, z, w)) && x == l && y == t && z == rt && w == b,
            None => r is None,
        },
{
    proof {
        lemma_index_from(s@, ':', 0);
    }
    match find_char(s, ':') {
        None => None,
        Some(k) => {
            let n = s.unicode_len();
            let first = to_ascii_upper(s.substring_char(0, k));
            let second = to_ascii_upper(s.substring_char(k + 1, n));
            assert(s@.subrange(0, k as int) =~= s@.take(k as int));
            assert(s@.subrange(k + 1, n as int) =~= s@.skip(k + 1));
            match (parse_a1(first.as_str()), parse_a1(second.as_str())) {
                (Some((r1, c1)), Some((r2, c2))) => Some((c1, r1, c2, r2)),
                _ => None,
            }
        },
    }
}

/// First index at or after `i` that is not whitespace.
pub open spec fn skip_space(s: Seq<char>, i: nat) -> nat
    decreases s.len() - i,
{
    if i < s.len() && is_whitespace(s[i as int]) {
        skip_space(s, i + 1)
    } else {
        i
    }
}

/// Largest end at or before `j` not preceded by whitespace.
pub open spec fn space_end(s: Seq<char>, j: nat) -> nat
    decreases j,
{
    if 0 < j <= s.len() && is_whitespace(s[j - 1]) {
        space_end(s, (j - 1) as nat)
    } else {
        j
    }
}

/// `s` without leading and trailing whitespace (as `str::trim`).
pub open spec fn trimmed(s: Seq<char>) -> Seq<char> {
    if skip_space(s, 0) >= s.len() {
        Seq::empty()
    } else {
        s.subrange(skip_space(s, 0) as int, space_end(s, s.len()) as int)
    }
}

proof fn lemma_skip_space(s: Seq<char>, i: nat)
    requires
        i <= s.len(),
    ensures
        i <= skip_space(s, i) <= s.len(),
        skip_space(s, i) < s.len() ==> !is_whitespace(s[skip_space(s, i) as int]),
    decreases s.len() - i,
{
    if i < s.len() && is_whitespace(s[i as int]) {
        lemma_skip_space(s, i + 1);
    }
}

proof fn lemma_space_end(s: Seq<char>, j: nat, a: nat)
    requires
        j <= s.len(),
        a < j,
        !is_whitespace(s[a as int]),
    ensures
        a < space_end(s, j) <= j,
    decreases j,
{
    if 0 < j <= s.len() && is_whitespace(s[j - 1]) {
        lemma_space_end(s, (j - 1) as nat, a);
    }
}

fn trim(s: &str) -> (t: &str)
    ensures
        t@ == trimmed(s@),
{
    let n = s.unicode_len();
    let mut a: usize = 0;
    while a < n && char_is_whitespace(s.get_char(a))
        invariant
            n == s@.len(),
            a <= n,
            skip_space(s@, 0) == skip_space(s@, a as nat),
        decreases n - a,
    {
        a += 1;
    }
    if a >= n {
        return s.substring_char(0, 0);
    }
    proof {
        lemma_space_end(s@, n as nat, a as nat);
    }
    let mut e: usize = n;
    while e > 0 && char_is_whitespace(s.get_char(e - 1))
        invariant
            n == s@.len(),
            a < n,
            !is_whitespace(s@[a as int]),
            e <= n,
            a < e,
            space_end(s@, n as nat) == space_end(s@, e as nat),
        decreases e,
    {
        proof {
            lemma_space_end(s@, (e - 1) as nat, a as nat);
        }
        e -= 1;
    }
    s.substring_char(a, e)
}

/// A quoted sheet name read from `i` (just after the opening quote), with
/// `acc` read so far: `''` stands for `'`, and a lone `'` closes the name.
/// Gives the name and the index after the closing quote.
pub open spec fn quoted_name_from(s: Seq<char>, i: nat, acc: Seq<char>) -> Option<(Seq<char>, nat)>
    decreases s.len() - i,
{
    if i >= s.len() {
        None
    } else if s[i as int] == '\'' {
        if i + 1 < s.len() && s[i + 1int] == '\'' {
            quoted_name_from(s, i + 2, acc.push('\''))
        } else {
            Some((acc, i + 1))
        }
    } else {
        quoted_name_from(s, i + 1, acc.push(s[i as int]))
    }
}

proof fn lemma_quoted_name_from(s: Seq<char>, i: nat, acc: Seq<char>)
    ensures
        quoted_name_from(s, i, acc) matches Some((_, j)) ==> i < j <= s.len(),
    decreases s.len() - i,
{
    if i < s.len() {
        if s[i as int] == '\'' {
            if i + 1 < s.len() && s[i + 1int] == '\'' {
                lemma_quoted_name_from(s, i + 2, acc.push('\''));
            }
        } else {
            lemma_quoted_name_from(s, i + 1, acc.push(s[i as int]));
        }
    }
}

/// The optional sheet name and the cell part of a reference such as
/// `A1`, `Sheet2!A1` or `'My sheet'!A1` (after trimming whitespace). An
/// unquoted sheet name ends at the last `!`. `None` for an empty reference
/// or a quoted name that is not closed or not followed by `!`.
pub open spec fn split_reference(r: Seq<char>) -> Option<(Option<Seq<char>>, Seq<char>)> {
    let t = trimmed(r);
    if t.len() == 0 {
        None
    } else if t[0] == '\'' {
        match quoted_name_from(t, 1, Seq::empty()) {
            None => None,
            Some((name, j)) => if j < t.len() && t[j as int] == '!' {
                Some((Some(name), t.skip(j + 1int)))
            } else {
                None
            },
        }
    } else {
        match last_index_before(t, '!', t.len()) {
            Some(k) => Some((Some(t.take(k as int)), t.skip(k + 1int))),
            None => Some((None, t)),
        }
    }
}

/// Splits a reference into its sheet name, if any, and its cell part (see
/// [`split_reference`]).
pub fn split_sheet_reference(reference: &str) -> (r: Option<(Option<String>, String)>)
    ensures
        match split_reference(reference@) {
            None => r is None,
            Some((name, cell)) => r matches Some((n, c)) && c@ == cell && match name {
                Some(x) => n matches Some(y) && y@ == x,
                None => n is None,
            },
        },
{
    let t = trim(reference);
    let n = t.unicode_len();
    if n == 0 {
        return None;
    }
    if t.get_char(0) == '\'' {
        let mut name = String::new();
        let mut i: usize = 1;
        while i < n
            invariant
                n == t@.len(),
                t@ == trimmed(reference@),
                t@[0] == '\'',
                1 <= i <= n + 1,
                quoted_name_from(t@, 1, Seq::empty()) == quoted_name_from(t@, i as nat, name@),
            decreases n - i,
        {
            let c = t.get_char(i);
            if c == '\'' {
                if i + 1 < n && t.get_char(i + 1) == '\'' {
                    push_char(&mut name, '\'');
                    i += 2;
                    continue;
                }
                assert(quoted_name_from(t@, i as nat, name@) == Some((name@, (i + 1) as nat)));
                if i + 1 < n && t.get_char(i + 1) == '!' {
                    let rest = t.substring_char(i + 2, n);
                    assert(rest@ =~= t@.skip(i + 2));
                    return Some((Some(name), String::from_str(rest)));
                }
                return None;
            }
            push_char(&mut name, c);
            i += 1;
        }
        return None;
    }
    proof {
        lemma_last_index_before(t@, '!', n as nat);
    }
    match find_last_char(t, '!') {
        Some(k) => {
            let sheet = t.substring_char(0, k);
            let cell = t.substring_char(k + 1, n);
            assert(sheet@ =~= t@.take(k as int));
            assert(cell@ =~= t@.skip(k + 1));
            Some((Some(String::from_str(sheet)), String::from_str(cell)))
        },
        None => Some((None, String::from_str(t))),
    }
}

// ---------------------------------------------------------------------------
// Cell references
// ---------------------------------------------------------------------------

/// A cell of the workbook: sheet index and 1-based row and column.
#[derive(Debug, Clone, Copy, PartialEq, Eq, Structural)]
pub struct CellReferenceIndex {
    pub sheet: u32,
    pub row: i32,
    pub column: i32,
}

/// Index of the first sheet from `i` on whose name is `name`, ignoring the
/// case of ASCII letters (sheets are numbered by `u32`: a sheet past
/// `u32::MAX` is not found).
pub open spec fn sheet_named(sheets: Seq<SheetView>, name: Seq<char>, i: nat) -> Option<nat>
    decreases sheets.len() - i,
{
    if i >= sheets.len() || i > u32::MAX {
        None
    } else if upper_text(sheets[i as int].name) == upper_text(name) {
        Some(i)
    } else {
        sheet_named(sheets, name, i + 1)
    }
}

/// The cell a reference names: its sheet (`default_sheet` when it names
/// none), row and column.
pub open spec fn cell_reference(m: ModelView, default_sheet: u32, r: Seq<char>) -> Option<(nat, int, int)> {
    match split_reference(r) {
        None => None,
        Some((name, cell)) => {
            let sheet = match name {
                Some(n) => sheet_named(m.sheets, n, 0),
                None => Some(default_sheet as nat),
            };
            match (sheet, parsed_a1(upper_text(cell))) {
                (Some(s), Some((row, column))) => Some((s, row, column)),
                _ => None,
            }
        },
    }
}

proof fn lemma_sheet_named(sheets: Seq<SheetView>, name: Seq<char>, i: nat)
    ensures
        sheet_named(sheets, name, i) matches Some(k) ==> i <= k < sheets.len(),
    decreases sheets.len() - i,
{
    if i < sheets.len() && upper_text(sheets[i as int].name) != upper_text(name) {
        lemma_sheet_named(sheets, name, i + 1);
    }
}

impl Model {
    /// Index of the sheet named `name`, ignoring the case of ASCII letters.
    pub fn get_sheet_index_by_name(&self, name: &str) -> (r: Option<u32>)
        ensures
            sheet_named(self@.sheets, name@, 0) == match r {
                Some(k) => Some(k as nat),
                None => None::<nat>,
            },
    {
        let wanted = to_ascii_upper(name);
        let mut i: usize = 0;
        while i < self.worksheets.len()
            invariant
                i <= self.worksheets@.len(),
                wanted@ == upper_text(name@),
                sheet_named(self@.sheets, name@, 0) == sheet_named(self@.sheets, name@, i as nat),
            decreases self.worksheets@.len() - i,
        {
            if i > u32::MAX as usize {
                return None;
            }
            assert(self@.sheets[i as int] == self.worksheets@[i as int]@);
            let candidate = to_ascii_upper(self.worksheets[i].name.as_str());
            if str_eq(candidate.as_str(), wanted.as_str()) {
                return Some(i as u32);
            }
            i += 1;
        }
        None
    }
}

/// Resolves a reference such as `A1` or `'Sheet 2'!$B$3` against the
/// workbook (see [`cell_reference`]).
pub fn parse_cell_reference(model: &Model, default_sheet: u32, reference: &str) -> (r: Option<
    CellReferenceIndex,
>)
    ensures
        match cell_reference(model@, default_sheet, reference@) {
            Some((s, row, column)) => r matches Some(c) && c.sheet == s && c.row == row && c.column
                == column,
            None => r is None,
        },
{
    let (sheet_name, cell) = match split_sheet_reference(reference) {
        None => return None,
        Some(parts) => parts,
    };
    let sheet = match sheet_name {
        Some(n) => match model.get_sheet_index_by_name(n.as_str()) {
            Some(s) => s,
            None => return None,
        },
        None => default_sheet,
    };
    let upper = to_ascii_upper(cell.as_str());
    match parse_a1(upper.as_str()) {
        Some((row, column)) => Some(CellReferenceIndex { sheet, row, column }),
        None => None,
    }
}

// ---------------------------------------------------------------------------
// Tables of a workbook
// ---------------------------------------------------------------------------

/// Whether the bounds `(left, top, right, bottom)` contain `(row, column)`.
pub open spec fn bounds_contain(b: (int, int, int, int), row: int, column: int) -> bool {
    b.1 <= row <= b.3 && b.0 <= column <= b.2
}

/// Whether table `t`'s output range contains `(row, column)`.
pub open spec fn table_contains(t: DataTableView, row: int, column: int) -> bool {
    parsed_range(t.range) matches Some(b) && bounds_contain(b, row, column)
}

/// Whether table `t`'s output range has its top-left cell at `(top, left)`.
pub open spec fn anchored_at(t: DataTableView, top: int, left: int) -> bool {
    parsed_range(t.range) matches Some(b) && b.1 == top && b.0 == left
}

/// Index of the first table from `i` on whose range contains `(row, column)`.
pub open spec fn table_containing(ts: Seq<DataTableView>, row: int, column: int, i: nat) -> Option<nat>
    decreases ts.len() - i,
{
    if i >= ts.len() {
        None
    } else if table_contains(ts[i as int], row, column) {
        Some(i)
    } else {
        table_containing(ts, row, column, i + 1)
    }
}

/// Index of the first table from `i` on anchored at `(top, left)`.
pub open spec fn table_anchored(ts: Seq<DataTableView>, top: int, left: int, i: nat) -> Option<nat>
    decreases ts.len() - i,
{
    if i >= ts.len() {
        None
    } else if anchored_at(ts[i as int], top, left) {
        Some(i)
    } else {
        table_anchored(ts, top, left, i + 1)
    }
}

pub(crate) proof fn lemma_table_containing(ts: Seq<DataTableView>, row: int, column: int, i: nat)
    ensures
        table_containing(ts, row, column, i) matches Some(k) ==> i <= k < ts.len() && table_contains(
            ts[k as int],
            row,
            column,
        ),
        table_containing(ts, row, column, i) is None ==> forall|k: int|
            i <= k < ts.len() ==> !table_contains(#[trigger] ts[k], row, column),
    decreases ts.len() - i,
{
    if i < ts.len() && !table_contains(ts[i as int], row, column) {
        lemma_table_containing(ts, row, column, i + 1);
    }
}

pub(crate) proof fn lemma_table_anchored(ts: Seq<DataTableView>, top: int, left: int, i: nat)
    ensures
        table_anchored(ts, top, left, i) matches Some(k) ==> i <= k < ts.len() && anchored_at(
            ts[k as int],
            top,
            left,
        ),
        table_anchored(ts, top, left, i) is None ==> forall|k: int|
            i <= k < ts.len() ==> !anchored_at(#[trigger] ts[k], top, left),
    decreases ts.len() - i,
{
    if i < ts.len() && !anchored_at(ts[i as int], top, left) {
        lemma_table_anchored(ts, top, left, i + 1);
    }
}

pub open spec fn invalid_sheet_message() -> Seq<char> {
    "Invalid sheet index"@
}

pub open spec fn invalid_range_message() -> Seq<char> {
    "Invalid data table range"@
}

pub open spec fn no_room_message() -> Seq<char> {
    "A data table needs a row above and a column to its left"@
}

pub open spec fn invalid_input_message() -> Seq<char> {
    "Invalid data table input cell"@
}

pub open spec fn no_table_message() -> Seq<char> {
    "There is no data table at this cell"@
}

/// Why table `t` cannot be set on sheet `sheet`, if it cannot: the sheet
/// must exist; the range must be `A1:B2`-shaped with its corners in order
/// and leave a row above and a column to its left; the input cells must
/// resolve.
pub open spec fn table_error(m: ModelView, sheet: u32, t: DataTableView) -> Option<Seq<char>> {
    if sheet >= m.sheets.len() {
        Some(invalid_sheet_message())
    } else {
        match parsed_range(t.range) {
            None => Some(invalid_range_message()),
            Some(b) => if b.3 < b.1 || b.2 < b.0 {
                Some(invalid_range_message())
            } else if b.1 <= 1 || b.0 <= 1 {
                Some(no_room_message())
            } else if cell_reference(m, sheet, t.r1) is None || (t.r2 matches Some(r2)
                && cell_reference(m, sheet, r2) is None) {
                Some(invalid_input_message())
            } else {
                None
            },
        }
    }
}

/// The workbook with the tables of sheet `sheet` replaced by `ts`.
pub open spec fn with_tables(m: ModelView, sheet: int, ts: Seq<DataTableView>) -> ModelView {
    ModelView { sheets: m.sheets.update(sheet, SheetView { tables: ts, ..m.sheets[sheet] }), ..m }
}

/// The workbook with table `t` put back on sheet `sheet` as it was, without
/// checking it again: it replaces the table anchored at its top-left cell,
/// or is added after the others. Unchanged for a missing sheet or a range
/// that does not parse.
pub open spec fn restore_result(m: ModelView, sheet: u32, t: DataTableView) -> ModelView {
    if sheet < m.sheets.len() && parsed_range(t.range) is Some {
        with_tables(m, sheet as int, tables_after_set(m.sheets[sheet as int].tables, t))
    } else {
        m
    }
}

/// The tables of a sheet after `t` is set: it replaces the table anchored
/// at the same top-left cell, or is added after the others.
pub open spec fn tables_after_set(ts: Seq<DataTableView>, t: DataTableView) -> Seq<DataTableView> {
    match parsed_range(t.range) {
        Some(b) => match table_anchored(ts, b.1, b.0, 0) {
            Some(k) => ts.update(k as int, t),
            None => ts.push(t),
        },
        None => ts,
    }
}

/// The table that setting `t` replaces, if any.
pub open spec fn replaced_table(ts: Seq<DataTableView>, t: DataTableView) -> Option<DataTableView> {
    match parsed_range(t.range) {
        Some(b) => match table_anchored(ts, b.1, b.0, 0) {
            Some(k) => Some(ts[k as int]),
            None => None,
        },
        None => None,
    }
}

/// A cell with its input removed when it lies within the bounds `b`; its
/// style stays.
pub open spec fn cleared_cell(c: CellView, b: (int, int, int, int)) -> CellView {
    if bounds_contain(b, c.row as int, c.column as int) {
        CellView { input: None, ..c }
    } else {
        c
    }
}

pub open spec fn cleared_cells(cells: Seq<CellView>, b: (int, int, int, int)) -> Seq<CellView> {
    cells.map_values(|c: CellView| cleared_cell(c, b))
}

/// The workbook after the table at index `k` of sheet `sheet` is deleted:
/// the table is removed and its output cells lose their inputs.
pub open spec fn after_delete(m: ModelView, sheet: int, k: int) -> ModelView {
    let s = m.sheets[sheet];
    let b = parsed_range(s.tables[k].range).unwrap();
    ModelView {
        sheets: m.sheets.update(
            sheet,
            SheetView { tables: s.tables.remove(k), cells: cleared_cells(s.cells, b), ..s },
        ),
        ..m
    }
}

fn find_table_containing(ts: &Vec<DataTable>, row: i32, column: i32) -> (r: Option<usize>)
    ensures
        table_containing(tables_view_of(ts@), row as int, column as int, 0) == match r {
            Some(k) => Some(k as nat),
            None => None::<nat>,
        },
{
    let ghost v = tables_view_of(ts@);
    let mut i: usize = 0;
    while i < ts.len()
        invariant
            i <= ts@.len(),
            v == tables_view_of(ts@),
            table_containing(v, row as int, column as int, 0) == table_containing(
                v,
                row as int,
                column as int,
                i as nat,
            ),
        decreases ts@.len() - i,
    {
        assert(v[i as int] == ts@[i as int]@);
        match parse_range(ts[i].range.as_str()) {
            Some((l, t, rt, b)) => {
                if t <= row && row <= b && l <= column && column <= rt {
                    return Some(i);
                }
            },
            None => {},
        }
        i += 1;
    }
    None
}

fn find_table_anchored(ts: &Vec<DataTable>, top: i32, left: i32) -> (r: Option<usize>)
    ensures
        table_anchored(tables_view_of(ts@), top as int, left as int, 0) == match r {
            Some(k) => Some(k as nat),
            None => None::<nat>,
        },
{
    let ghost v = tables_view_of(ts@);
    let mut i: usize = 0;
    while i < ts.len()
        invariant
            i <= ts@.len(),
            v == tables_view_of(ts@),
            table_anchored(v, top as int, left as int, 0) == table_anchored(
                v,
                top as int,
                left as int,
                i as nat,
            ),
        decreases ts@.len() - i,
    {
        assert(v[i as int] == ts@[i as int]@);
        match parse_range(ts[i].range.as_str()) {
            Some((l, t, _, _)) => {
                if t == top && l == left {
                    return Some(i);
                }
            },
            None => {},
        }
        i += 1;
    }
    None
}

pub open spec fn tables_view_of(ts: Seq<DataTable>) -> Seq<DataTableView> {
    ts.map_values(|t: DataTable| t@)
}

/// Removes the inputs of the cells within `(left, top, right, bottom)`.
fn clear_cells(cells: &mut Vec<Cell>, b: (i32, i32, i32, i32))
    ensures
        cells_view(final(cells)@) == cleared_cells(
            cells_view(old(cells)@),
            (b.0 as int, b.1 as int, b.2 as int, b.3 as int),
        ),
{
    let ghost bi = (b.0 as int, b.1 as int, b.2 as int, b.3 as int);
    let ghost orig = cells_view(cells@);
    let n = cells.len();
    let mut j: usize = 0;
    while j < n
        invariant
            n == cells@.len(),
            j <= n,
            orig.len() == n,
            bi == (b.0 as int, b.1 as int, b.2 as int, b.3 as int),
            forall|k: int| 0 <= k < j ==> #[trigger] cells_view(cells@)[k] == cleared_cell(orig[k], bi),
            forall|k: int| j <= k < n ==> #[trigger] cells_view(cells@)[k] == orig[k],
        decreases n - j,
    {
        let r = cells[j].row;
        let c = cells[j].column;
        if b.1 <= r && r <= b.3 && b.0 <= c && c <= b.2 {
            let ghost before = cells@;
            assert(cells_view(before)[j as int] == orig[j as int]);
            assert(orig[j as int] == cell_view(before[j as int]));
            let old_cell = cells.remove(j);
            cells.insert(j, Cell { row: old_cell.row, column: old_cell.column, input: None, style: old_cell.style });
            assert(cells@ =~= before.update(j as int, cells@[j as int]));
            assert(cells_view(cells@) =~= cells_view(before).update(
                j as int,
                cleared_cell(orig[j as int], bi),
            ));
        }
        assert(cells_view(cells@)[j as int] == cleared_cell(orig[j as int], bi));
        j += 1;
    }
    assert(cells_view(cells@) =~= cleared_cells(orig, bi));
}

impl Model {
    /// The table of sheet `sheet` whose output range contains `(row, column)`.
    pub fn get_data_table(&self, sheet: u32, row: i32, column: i32) -> (r: Result<Option<DataTable>, String>)
        ensures
            sheet >= self@.sheets.len() ==> (r matches Err(e) && e@ == invalid_sheet_message()),
            sheet < self@.sheets.len() ==> (r matches Ok(o) && match table_containing(
                self@.sheets[sheet as int].tables,
                row as int,
                column as int,
                0,
            ) {
                Some(k) => o matches Some(t) && t@ == self@.sheets[sheet as int].tables[k as int],
                None => o is None,
            }),
    {
        let i = sheet as usize;
        if i >= self.worksheets.len() {
            return Err(String::from_str("Invalid sheet index"));
        }
        assert(self@.sheets[i as int] == self.worksheets@[i as int]@);
        assert(self@.sheets[i as int].tables =~= tables_view_of(self.worksheets@[i as int].data_tables@));
        proof {
            lemma_table_containing(self@.sheets[i as int].tables, row as int, column as int, 0);
        }
        match find_table_containing(&self.worksheets[i].data_tables, row, column) {
            Some(k) => Ok(Some(self.worksheets[i].data_tables[k].duplicate())),
            None => Ok(None),
        }
    }
}

impl Model {
    /// Sets table `table` on sheet `sheet`. It replaces the table anchored at
    /// the same top-left cell, which is returned, or is added. Fails
    /// (changing nothing) as [`table_error`] says.
    pub fn set_data_table(&mut self, sheet: u32, table: DataTable) -> (r: Result<Option<DataTable>, String>)
        ensures
            match table_error(old(self)@, sheet, table@) {
                Some(msg) => r matches Err(e) && e@ == msg && final(self)@ == old(self)@,
                None => r matches Ok(o) && final(self)@ == with_tables(
                    old(self)@,
                    sheet as int,
                    tables_after_set(old(self)@.sheets[sheet as int].tables, table@),
                ) && match replaced_table(old(self)@.sheets[sheet as int].tables, table@) {
                    Some(t) => o matches Some(x) && x@ == t,
                    None => o is None,
                },
            },
    {
        let i = sheet as usize;
        if i >= self.worksheets.len() {
            return Err(String::from_str("Invalid sheet index"));
        }
        let (left, top, right, bottom) = match parse_range(table.range.as_str()) {
            None => return Err(String::from_str("Invalid data table range")),
            Some(b) => b,
        };
        if bottom < top || right < left {
            return Err(String::from_str("Invalid data table range"));
        }
        if top <= 1 || left <= 1 {
            return Err(String::from_str("A data table needs a row above and a column to its left"));
        }
        let r1_ok = parse_cell_reference(self, sheet, table.r1.as_str()).is_some();
        let r2_ok = match &table.r2 {
            Some(r2) => parse_cell_reference(self, sheet, r2.as_str()).is_some(),
            None => true,
        };
        if !r1_ok || !r2_ok {
            return Err(String::from_str("Invalid data table input cell"));
        }
        let ghost before = self@;
        let ghost tv = table@;
        let mut w = self.take_sheet(i);
        assert(w@.tables =~= tables_view_of(w.data_tables@));
        proof {
            lemma_table_anchored(w@.tables, top as int, left as int, 0);
        }
        let replaced = match find_table_anchored(&w.data_tables, top, left) {
            Some(k) => {
                let ghost ts = w.data_tables@;
                let old_table = w.data_tables.remove(k);
                w.data_tables.insert(k, table);
                assert(tables_view_of(w.data_tables@) =~= tables_view_of(ts).update(k as int, tv));
                Some(old_table)
            },
            None => {
                let ghost ts = w.data_tables@;
                w.data_tables.push(table);
                assert(tables_view_of(w.data_tables@) =~= tables_view_of(ts).push(tv));
                None
            },
        };
        assert(w@.tables =~= tables_view_of(w.data_tables@));
        self.put_sheet(i, w);
        assert(self@.sheets =~= with_tables(
            before,
            i as int,
            tables_after_set(before.sheets[i as int].tables, tv),
        ).sheets);
        Ok(replaced)
    }

    /// Puts table `table` back on sheet `sheet` without checking it again
    /// (see [`restore_result`]); used to take back a change.
    pub fn restore_data_table(&mut self, sheet: u32, table: DataTable)
        ensures
            final(self)@ == restore_result(old(self)@, sheet, table@),
    {
        let i = sheet as usize;
        if i >= self.worksheets.len() {
            return;
        }
        let (left, top) = match parse_range(table.range.as_str()) {
            None => return,
            Some(b) => (b.0, b.1),
        };
        let ghost before = self@;
        let ghost tv = table@;
        let mut w = self.take_sheet(i);
        assert(w@.tables =~= tables_view_of(w.data_tables@));
        proof {
            lemma_table_anchored(w@.tables, top as int, left as int, 0);
        }
        match find_table_anchored(&w.data_tables, top, left) {
            Some(k) => {
                let ghost ts = w.data_tables@;
                let _ = w.data_tables.remove(k);
                w.data_tables.insert(k, table);
                assert(tables_view_of(w.data_tables@) =~= tables_view_of(ts).update(k as int, tv));
            },
            None => {
                let ghost ts = w.data_tables@;
                w.data_tables.push(table);
                assert(tables_view_of(w.data_tables@) =~= tables_view_of(ts).push(tv));
            },
        }
        assert(w@.tables =~= tables_view_of(w.data_tables@));
        self.put_sheet(i, w);
        assert(self@.sheets =~= with_tables(
            before,
            i as int,
            tables_after_set(before.sheets[i as int].tables, tv),
        ).sheets);
    }

    /// Deletes the table of sheet `sheet` whose output range contains
    /// `(row, column)` and removes the inputs of its output cells (their
    /// styles stay); returns the deleted table. Fails (changing nothing) when
    /// there is no such sheet or table.
    pub fn delete_data_table(&mut self, sheet: u32, row: i32, column: i32) -> (r: Result<DataTable, String>)
        ensures
            sheet >= old(self)@.sheets.len() ==> (r matches Err(e) && e@ == invalid_sheet_message()
                && final(self)@ == old(self)@),
            sheet < old(self)@.sheets.len() ==> match table_containing(
                old(self)@.sheets[sheet as int].tables,
                row as int,
                column as int,
                0,
            ) {
                Some(k) => r matches Ok(t) && t@ == old(self)@.sheets[sheet as int].tables[k as int]
                    && final(self)@ == after_delete(old(self)@, sheet as int, k as int),
                None => r matches Err(e) && e@ == no_table_message() && final(self)@ == old(self)@,
            },
    {
        let i = sheet as usize;
        if i >= self.worksheets.len() {
            return Err(String::from_str("Invalid sheet index"));
        }
        assert(self@.sheets[i as int] == self.worksheets@[i as int]@);
        assert(self@.sheets[i as int].tables =~= tables_view_of(self.worksheets@[i as int].data_tables@));
        proof {
            lemma_table_containing(self@.sheets[i as int].tables, row as int, column as int, 0);
        }
        let k = match find_table_containing(&self.worksheets[i].data_tables, row, column) {
            None => return Err(String::from_str("There is no data table at this cell")),
            Some(k) => k,
        };
        let ghost before = self@;
        let mut w = self.take_sheet(i);
        let ghost ts = w.data_tables@;
        assert(w@.tables =~= tables_view_of(ts));
        let removed = w.data_tables.remove(k);
        assert(tables_view_of(w.data_tables@) =~= tables_view_of(ts).remove(k as int));
        let b = match parse_range(removed.range.as_str()) {
            Some(b) => b,
            None => (0, 0, -1, -1),
        };
        clear_cells(&mut w.cells, b);
        assert(w@.tables =~= tables_view_of(w.data_tables@));
        self.put_sheet(i, w);
        assert(self@.sheets =~= after_delete(before, i as int, k as int).sheets);
        Ok(removed)
    }

    /// The workbook's iterative-calculation settings.
    pub fn get_iterative_calculation(&self) -> (c: &CalcProperties)
        ensures
            *c == self@.calc,
    {
        &self.calc_properties
    }

    /// Turns iterative calculation on or off, and sets the largest number of
    /// passes and the convergence delta (an IEEE double's bit pattern) when
    /// they are given.
    pub fn set_iterative_calculation(&mut self, iterate: bool, iterate_count: Option<u32>, iterate_delta: Option<u64>)
        ensures
            final(self)@ == (ModelView {
                calc: calc_with(old(self)@.calc, iterate, iterate_count, iterate_delta),
                ..old(self)@
            }),
    {
        let c = self.calc_properties;
        self.calc_properties = CalcProperties {
            iterate,
            iterate_count: match iterate_count {
                Some(n) => n,
                None => c.iterate_count,
            },
            iterate_delta: match iterate_delta {
                Some(d) => d,
                None => c.iterate_delta,
            },
        };
    }
}

// ---------------------------------------------------------------------------
// Laws
// ---------------------------------------------------------------------------

/// A table built from input cells is never inconsistent: it is
/// two-variable exactly when it has a second input cell, and a
/// two-variable table is not row-oriented. Building fails exactly when no
/// input cell is given.
pub proof fn law_built_tables_are_consistent(range: Seq<char>, row_input: Option<Seq<char>>, column_input: Option<Seq<char>>)
    ensures
        built_table(range, row_input, column_input) is Err <==> (row_input is None && column_input is None),
        built_table(range, row_input, column_input) matches Ok(t) ==> (t.two_dimensional <==> t.r2 is Some)
            && (t.two_dimensional ==> !t.row_oriented) && t.range == range,
{
}

proof fn lemma_table_containing_some(ts: Seq<DataTableView>, row: int, column: int, i: nat, k: nat)
    requires
        i <= k < ts.len(),
        table_contains(ts[k as int], row, column),
    ensures
        table_containing(ts, row, column, i) is Some,
    decreases k - i,
{
    if !table_contains(ts[i as int], row, column) {
        lemma_table_containing_some(ts, row, column, i + 1, k);
    }
}

/// Whether two tables are anchored at the same top-left cell.
pub open spec fn same_anchor(a: DataTableView, b: DataTableView) -> bool {
    match parsed_range(a.range) {
        Some(ba) => anchored_at(b, ba.1, ba.0),
        None => false,
    }
}

/// Whether no two tables of `ts` are anchored at the same top-left cell.
pub open spec fn anchors_unique(ts: Seq<DataTableView>) -> bool {
    forall|i: int, j: int| 0 <= i < j < ts.len() ==> !same_anchor(#[trigger] ts[i], #[trigger] ts[j])
}

/// Setting a table keeps one table per top-left cell: on a sheet whose
/// tables have distinct anchors, afterwards exactly one table is anchored
/// at the new table's top-left cell, it is the new table, the tables at
/// other anchors stay where they were, and the anchors are still distinct.
pub proof fn law_set_keeps_one_table_per_anchor(ts: Seq<DataTableView>, t: DataTableView)
    requires
        anchors_unique(ts),
        parsed_range(t.range) is Some,
    ensures
        ({
            let b = parsed_range(t.range).unwrap();
            let after = tables_after_set(ts, t);
            &&& anchors_unique(after)
            &&& table_anchored(after, b.1, b.0, 0) matches Some(k) && after[k as int] == t
            &&& forall|i: int| 0 <= i < after.len() && anchored_at(#[trigger] after[i], b.1, b.0) ==> after[i] == t
            &&& forall|i: int| 0 <= i < ts.len() && !anchored_at(#[trigger] ts[i], b.1, b.0) ==> after[i] == ts[i]
        }),
{
    let b = parsed_range(t.range).unwrap();
    lemma_table_anchored(ts, b.1, b.0, 0);
    let after = tables_after_set(ts, t);
    match table_anchored(ts, b.1, b.0, 0) {
        Some(k) => {
            assert(after == ts.update(k as int, t));
            // a table anchored at t's cell shares its anchor with ts[k]
            assert forall|i: int| 0 <= i < after.len() && anchored_at(#[trigger] after[i], b.1, b.0) implies after[i] == t by {
                if i != k {
                    assert(same_anchor(ts[i], ts[k as int]) && same_anchor(ts[k as int], ts[i]));
                    if i < k {
                        assert(!same_anchor(ts[i], ts[k as int]));
                    } else {
                        assert(!same_anchor(ts[k as int], ts[i]));
                    }
                }
            }
            assert forall|i: int, j: int| 0 <= i < j < after.len() implies !same_anchor(#[trigger] after[i], #[trigger] after[j]) by {
                if i == k {
                    assert(same_anchor(t, after[j]) == same_anchor(ts[k as int], ts[j]));
                } else if j == k {
                    assert(same_anchor(ts[i], t) == same_anchor(ts[i], ts[k as int]));
                } else {
                    assert(!same_anchor(ts[i], ts[j]));
                }
            }
            lemma_table_anchored_finds(after, b.1, b.0, k);
        },
        None => {
            assert(after == ts.push(t));
            assert forall|i: int, j: int| 0 <= i < j < after.len() implies !same_anchor(#[trigger] after[i], #[trigger] after[j]) by {
                if j == ts.len() {
                    assert(!anchored_at(ts[i], b.1, b.0));
                    assert(after[j] == t);
                    if same_anchor(ts[i], t) {
                        assert(same_anchor(t, ts[i]));
                    }
                } else {
                    assert(!same_anchor(ts[i], ts[j]));
                }
            }
            lemma_table_anchored_finds(after, b.1, b.0, ts.len());
        },
    }
}

/// The first table anchored at a cell is found there.
proof fn lemma_table_anchored_finds(ts: Seq<DataTableView>, top: int, left: int, k: nat)
    requires
        k < ts.len(),
        anchored_at(ts[k as int], top, left),
        forall|i: int| 0 <= i < k ==> !anchored_at(#[trigger] ts[i], top, left),
    ensures
        table_anchored(ts, top, left, 0) == Some(k),
{
    lemma_table_anchored_from(ts, top, left, 0, k);
}

proof fn lemma_table_anchored_from(ts: Seq<DataTableView>, top: int, left: int, i: nat, k: nat)
    requires
        i <= k < ts.len(),
        anchored_at(ts[k as int], top, left),
        forall|j: int| i <= j < k ==> !anchored_at(#[trigger] ts[j], top, left),
    ensures
        table_anchored(ts, top, left, i) == Some(k),
    decreases k - i,
{
    if i < k {
        lemma_table_anchored_from(ts, top, left, i + 1, k);
    }
}

/// Once a table is set, a lookup at any of its output cells finds a table.
pub proof fn law_set_table_is_found(m: ModelView, sheet: u32, t: DataTableView, row: int, column: int)
    requires
        table_error(m, sheet, t) is None,
        table_contains(t, row, column),
    ensures
        table_containing(tables_after_set(m.sheets[sheet as int].tables, t), row, column, 0) is Some,
{
    let ts = m.sheets[sheet as int].tables;
    let b = parsed_range(t.range).unwrap();
    lemma_table_anchored(ts, b.1, b.0, 0);
    match table_anchored(ts, b.1, b.0, 0) {
        Some(k) => {
            let after = ts.update(k as int, t);
            assert(after[k as int] == t);
            lemma_table_containing_some(after, row, column, 0, k);
        },
        None => {
            let after = ts.push(t);
            assert(after[ts.len() as int] == t);
            lemma_table_containing_some(after, row, column, 0, ts.len());
        },
    }
}

/// Deleting a table removes the inputs of its output cells and nothing
/// else: every cell keeps its place and style, cells outside the table keep
/// their inputs, and the table is gone from the sheet's list.
pub proof fn law_delete_clears_body_keeps_styles(m: ModelView, sheet: int, k: int)
    requires
        0 <= sheet < m.sheets.len(),
        0 <= k < m.sheets[sheet].tables.len(),
        parsed_range(m.sheets[sheet].tables[k].range) is Some,
    ensures
        ({
            let before = m.sheets[sheet].cells;
            let after = after_delete(m, sheet, k).sheets[sheet].cells;
            let b = parsed_range(m.sheets[sheet].tables[k].range).unwrap();
            &&& after.len() == before.len()
            &&& forall|j: int|
                0 <= j < after.len() ==> (#[trigger] after[j]).row == before[j].row && after[j].column
                    == before[j].column && after[j].style == before[j].style && (if bounds_contain(
                    b,
                    before[j].row as int,
                    before[j].column as int,
                ) {
                    after[j].input is None
                } else {
                    after[j].input == before[j].input
                })
            &&& after_delete(m, sheet, k).sheets[sheet].tables == m.sheets[sheet].tables.remove(k)
        }),
{
}

} // verus!
