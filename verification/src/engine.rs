//! A small formula engine: the values of cells, computed from their inputs.
//!
//! Numbers are decimals `m / 10^s` with `|m| < 10^18` and at most 15
//! decimal places; results of arithmetic are rounded (half away from zero)
//! to 15 places, and a result too large for that form is `#NUM!`.
//! Formulas may use numbers, cell references (`A1`, `$B$2`), the operators
//! `+ - * /`, unary minus, parentheses, and `SUM` and `AVERAGE` of a range
//! (`SUM(A1:B3)`), which take the numbers of the range and skip its text,
//! booleans and empty cells. A cell whose value depends on
//! itself is `#CIRC!`, unless iterative calculation is on: then the
//! workbook is evaluated in passes, a circular read taking the cell's value
//! from the pass before (zero at first), until every number moves by at
//! most the delta or the largest number of passes is reached.

use vstd::prelude::*;

use crate::datatable::{cell_reference, parse_cell_reference, ascii_upper, digits_value, is_digit, is_upper_letter, lemma_letters_value_bound, upper_text};
use crate::text::{decimal, digit_char, letters_value};
use crate::input::InputText;
use crate::workbook::{find_cell, find_cell_exec, CellView, Model, ModelView, SheetView, LAST_COLUMN, LAST_ROW};
use crate::number::{number_text, number_text_exec, Number, Piece, PieceView, decimal_fraction, fraction_digits, lemma_pow10_monotone, padded_digits, pow10, pow10_exec, push_decimal_fraction};

verus! {

/// `10^18`: bound on the magnitude of a decimal's mantissa.
pub const DEC_LIMIT: u128 = 1_000_000_000_000_000_000;

/// Largest number of decimal places of a decimal.
pub const MAX_SCALE: u32 = 15;

/// The decimal `m / 10^s`.
#[derive(Debug, Clone, Copy, PartialEq, Eq, Structural)]
pub struct Decimal {
    pub m: i128,
    pub s: u32,
}

/// `mag / 10^s` without the trailing zeros of its mantissa.
pub open spec fn normalized(mag: nat, s: nat) -> (nat, nat)
    decreases s,
{
    if s > 0 && mag % 10 == 0 {
        normalized(mag / 10, (s - 1) as nat)
    } else {
        (mag, s)
    }
}

/// The decimal `±mag / 10^s`, normalized, when its mantissa stays below
/// `10^18` and it has at most 15 places.
pub open spec fn make_decimal(neg: bool, mag: nat, s: nat) -> Option<Decimal> {
    let (m2, s2) = normalized(mag, s);
    if m2 < DEC_LIMIT && s2 <= MAX_SCALE {
        Some(Decimal { m: if neg { -(m2 as int) } else { m2 as int } as i128, s: s2 as u32 })
    } else {
        None
    }
}

/// A well-formed decimal: its mantissa below `10^18` in magnitude, at
/// most 15 places, and no trailing zero in a mantissa with places.
pub open spec fn wf_decimal(d: Decimal) -> bool {
    &&& -(DEC_LIMIT as int) < d.m < DEC_LIMIT
    &&& d.s <= MAX_SCALE
    &&& (d.s == 0 || abs(d.m as int) % 10 != 0)
}

pub open spec fn abs(x: int) -> nat {
    if x < 0 {
        (-x) as nat
    } else {
        x as nat
    }
}

/// `x / y` rounded half away from zero (`y > 0`).
pub open spec fn round_div(x: nat, y: nat) -> nat {
    if 2 * (x % y) >= y {
        x / y + 1
    } else {
        x / y
    }
}

/// Sum of two decimals (see [`make_decimal`]).
pub open spec fn dec_add(a: Decimal, b: Decimal) -> Option<Decimal> {
    let s = if a.s >= b.s { a.s } else { b.s };
    let sum = a.m * pow10((s - a.s) as nat) + b.m * pow10((s - b.s) as nat);
    make_decimal(sum < 0, abs(sum), s as nat)
}

/// Difference of two decimals.
pub open spec fn dec_sub(a: Decimal, b: Decimal) -> Option<Decimal> {
    let s = if a.s >= b.s { a.s } else { b.s };
    let diff = a.m * pow10((s - a.s) as nat) - b.m * pow10((s - b.s) as nat);
    make_decimal(diff < 0, abs(diff), s as nat)
}

/// Product of two decimals, rounded to 15 places.
pub open spec fn dec_mul(a: Decimal, b: Decimal) -> Option<Decimal> {
    let p = a.m * b.m;
    if a.s + b.s <= MAX_SCALE {
        make_decimal(p < 0, abs(p), (a.s + b.s) as nat)
    } else {
        make_decimal(p < 0, round_div(abs(p), pow10((a.s + b.s - MAX_SCALE) as nat)), MAX_SCALE as nat)
    }
}

/// Quotient of two decimals (`b` not zero), rounded to 15 places.
pub open spec fn dec_div(a: Decimal, b: Decimal) -> Option<Decimal> {
    let num = abs(a.m as int) * pow10(b.s as nat);
    let den = abs(b.m as int) * pow10(a.s as nat);
    make_decimal((a.m < 0) != (b.m < 0), round_div(num * pow10(MAX_SCALE as nat), den), MAX_SCALE as nat)
}

/// The decimal text of a decimal: no trailing zeros, no point for an
/// integer, `-` for a negative value.
pub open spec fn decimal_text(d: Decimal) -> Seq<char> {
    decimal_fraction(d.m < 0, abs(d.m as int), d.s as nat)
}

pub proof fn lemma_pow10_add(a: nat, b: nat)
    ensures
        pow10(a + b) == pow10(a) * pow10(b),
    decreases a,
{
    if a == 0 {
        assert(pow10(0) == 1);
        assert(pow10(a + b) == pow10(b));
    } else {
        let a1 = (a - 1) as nat;
        lemma_pow10_add(a1, b);
        assert(pow10(a) == 10 * pow10(a1));
        assert(pow10(a + b) == 10 * pow10(a1 + b));
        let x = pow10(a1);
        let y = pow10(b);
        assert(10 * (x * y) == (10 * x) * y) by (nonlinear_arith);
    }
}

proof fn lemma_pow10_values()
    ensures
        pow10(15) == 1_000_000_000_000_000,
        pow10(18) == 1_000_000_000_000_000_000,
        pow10(30) == 1_000_000_000_000_000_000_000_000_000_000,
{
    reveal_with_fuel(pow10, 31);
}

/// The normalized mantissa times the power of ten it lost is the mantissa.
proof fn lemma_normalized(mag: nat, s: nat)
    ensures
        normalized(mag, s).1 <= s,
        normalized(mag, s).0 * pow10((s - normalized(mag, s).1) as nat) == mag,
    decreases s,
{
    if s > 0 && mag % 10 == 0 {
        let s1 = (s - 1) as nat;
        lemma_normalized(mag / 10, s1);
        vstd::arithmetic::div_mod::lemma_fundamental_div_mod(mag as int, 10);
        assert(mag == 10 * (mag / 10));
        let (m2, s2) = normalized(mag / 10, s1);
        assert(normalized(mag, s) == (m2, s2));
        let d = (s1 - s2) as nat;
        assert((s - s2) as nat == d + 1);
        assert(pow10(d + 1) == 10 * pow10(d));
        let p = pow10(d);
        assert(m2 * p == mag / 10);
        assert(m2 * (10 * p) == 10 * (m2 * p)) by (nonlinear_arith);
        assert(m2 * pow10(d + 1) == mag);
        assert(m2 * pow10((s - s2) as nat) == mag);
    } else {
        assert(normalized(mag, s) == (mag, s));
        assert(pow10(0) == 1);
        assert((s - s) as nat == 0);
        assert(mag * pow10(0) == mag);
    }
}

/// A normalized mantissa has no trailing zero unless it has no places.
proof fn lemma_normalized_ends(mag: nat, s: nat)
    ensures
        normalized(mag, s).1 == 0 || normalized(mag, s).0 % 10 != 0,
    decreases s,
{
    if s > 0 && mag % 10 == 0 {
        lemma_normalized_ends(mag / 10, (s - 1) as nat);
    }
}

fn make_decimal_exec(neg: bool, mag: u128, s: u32) -> (r: Option<Decimal>)
    ensures
        r == make_decimal(neg, mag as nat, s as nat),
        r matches Some(d) ==> wf_decimal(d),
{
    proof {
        lemma_normalized_ends(mag as nat, s as nat);
    }
    let mut m = mag;
    let mut k = s;
    while k > 0 && m % 10 == 0
        invariant
            normalized(m as nat, k as nat) == normalized(mag as nat, s as nat),
        decreases k,
    {
        m = m / 10;
        k = k - 1;
    }
    if m < DEC_LIMIT && k <= MAX_SCALE {
        let v = m as i128;
        Some(Decimal { m: if neg { -v } else { v }, s: k })
    } else {
        None
    }
}

fn pow10_small(d: u32) -> (p: i128)
    requires
        d <= MAX_SCALE,
    ensures
        p == pow10(d as nat),
        1 <= p <= 1_000_000_000_000_000,
{
    proof {
        lemma_pow10_monotone(d as nat, 15);
        lemma_pow10_monotone(0, d as nat);
        lemma_pow10_values();
    }
    pow10_exec(d) as i128
}

/// `m * p` for a mantissa and a power of ten of at most `10^15`.
fn scaled(m: i128, p: i128) -> (r: i128)
    requires
        -(DEC_LIMIT as int) < m < DEC_LIMIT,
        1 <= p <= 1_000_000_000_000_000,
    ensures
        r == m * p,
        -1_000_000_000_000_000_000_000_000_000_000_000 < r < 1_000_000_000_000_000_000_000_000_000_000_000,
{
    assert(-1_000_000_000_000_000_000_000_000_000_000_000 < m * p < 1_000_000_000_000_000_000_000_000_000_000_000)
        by (nonlinear_arith)
        requires
            -1_000_000_000_000_000_000 < m < 1_000_000_000_000_000_000,
            1 <= p <= 1_000_000_000_000_000,
    ;
    m * p
}

fn magnitude(x: i128) -> (r: u128)
    requires
        x > i128::MIN,
    ensures
        r == abs(x as int),
{
    if x < 0 {
        (-x) as u128
    } else {
        x as u128
    }
}

/// Sum of two decimals (see [`dec_add`]).
pub fn decimal_add(a: Decimal, b: Decimal) -> (r: Option<Decimal>)
    requires
        wf_decimal(a),
        wf_decimal(b),
    ensures
        r == dec_add(a, b),
        r matches Some(d) ==> wf_decimal(d),
{
    let s = if a.s >= b.s {
        a.s
    } else {
        b.s
    };
    let x = scaled(a.m, pow10_small(s - a.s));
    let y = scaled(b.m, pow10_small(s - b.s));
    let sum = x + y;
    make_decimal_exec(sum < 0, magnitude(sum), s)
}

/// Difference of two decimals (see [`dec_sub`]).
pub fn decimal_sub(a: Decimal, b: Decimal) -> (r: Option<Decimal>)
    requires
        wf_decimal(a),
        wf_decimal(b),
    ensures
        r == dec_sub(a, b),
        r matches Some(d) ==> wf_decimal(d),
{
    let s = if a.s >= b.s {
        a.s
    } else {
        b.s
    };
    let x = scaled(a.m, pow10_small(s - a.s));
    let y = scaled(b.m, pow10_small(s - b.s));
    let diff = x - y;
    make_decimal_exec(diff < 0, magnitude(diff), s)
}

/// `x / y` rounded half away from zero.
fn round_div_exec(x: u128, y: u128) -> (r: u128)
    requires
        y > 0,
        x < 1_000_000_000_000_000_000_000_000_000_000_000_000,
    ensures
        r == round_div(x as nat, y as nat),
{
    let q = x / y;
    let rem = x % y;
    if rem >= y - rem {
        q + 1
    } else {
        q
    }
}

/// Product of two decimals (see [`dec_mul`]).
pub fn decimal_mul(a: Decimal, b: Decimal) -> (r: Option<Decimal>)
    requires
        wf_decimal(a),
        wf_decimal(b),
    ensures
        r == dec_mul(a, b),
        r matches Some(d) ==> wf_decimal(d),
{
    assert(-1_000_000_000_000_000_000_000_000_000_000_000_000 < a.m * b.m < 1_000_000_000_000_000_000_000_000_000_000_000_000)
        by (nonlinear_arith)
        requires
            -1_000_000_000_000_000_000 < a.m < 1_000_000_000_000_000_000,
            -1_000_000_000_000_000_000 < b.m < 1_000_000_000_000_000_000,
    ;
    let p = a.m * b.m;
    let mag = magnitude(p);
    if a.s + b.s <= MAX_SCALE {
        make_decimal_exec(p < 0, mag, a.s + b.s)
    } else {
        let d = pow10_small(a.s + b.s - MAX_SCALE) as u128;
        make_decimal_exec(p < 0, round_div_exec(mag, d), MAX_SCALE)
    }
}

/// The quotient rounds to at least `q0 * 10^15` and so is too large when
/// `q0 >= 10^18`.
proof fn lemma_div_too_large(neg: bool, num: nat, den: nat)
    requires
        den > 0,
        num / den >= DEC_LIMIT,
    ensures
        make_decimal(neg, round_div(num * pow10(15), den), 15) is None,
{
    lemma_pow10_values();
    let q0 = num / den;
    let x = num * pow10(15);
    vstd::arithmetic::div_mod::lemma_fundamental_div_mod(num as int, den as int);
    assert(num >= q0 * den);
    assert(x >= q0 * 1_000_000_000_000_000 * den) by (nonlinear_arith)
        requires
            num >= q0 * den,
            x == num * 1_000_000_000_000_000,
            den > 0,
    ;
    vstd::arithmetic::div_mod::lemma_fundamental_div_mod(x as int, den as int);
    assert(x / den >= q0 * 1_000_000_000_000_000) by (nonlinear_arith)
        requires
            x >= q0 * 1_000_000_000_000_000 * den,
            x == den * (x / den) + x % den,
            0 <= x % den < den,
            den > 0,
            q0 >= 0,
    ;
    let r = round_div(x, den);
    assert(r >= q0 * 1_000_000_000_000_000);
    lemma_normalized(r, 15);
    let (m2, s2) = normalized(r, 15);
    lemma_pow10_monotone((15 - s2) as nat, 15);
    let p = pow10((15 - s2) as nat);
    assert(m2 * p == r);
    assert(m2 >= DEC_LIMIT) by (nonlinear_arith)
        requires
            m2 * p == r,
            1 <= p <= 1_000_000_000_000_000,
            r >= q0 * 1_000_000_000_000_000,
            q0 >= 1_000_000_000_000_000_000,
            m2 >= 0,
    ;
}

/// Quotient of two decimals (see [`dec_div`]); `b` must not be zero.
pub fn decimal_div(a: Decimal, b: Decimal) -> (r: Option<Decimal>)
    requires
        wf_decimal(a),
        wf_decimal(b),
        b.m != 0,
    ensures
        r == dec_div(a, b),
        r matches Some(d) ==> wf_decimal(d),
{
    proof {
        lemma_pow10_values();
    }
    let num = magnitude(scaled(a.m, pow10_small(b.s)));
    let den = magnitude(scaled(b.m, pow10_small(a.s)));
    assert(num == abs(a.m as int) * pow10(b.s as nat)) by (nonlinear_arith)
        requires
            num == abs(a.m * pow10(b.s as nat)),
            pow10(b.s as nat) >= 1,
    ;
    assert(den == abs(b.m as int) * pow10(a.s as nat)) by (nonlinear_arith)
        requires
            den == abs(b.m * pow10(a.s as nat)),
            pow10(a.s as nat) >= 1,
    ;
    assert(den > 0) by (nonlinear_arith)
        requires
            den == abs(b.m as int) * pow10(a.s as nat),
            b.m != 0,
            pow10(a.s as nat) >= 1,
    ;
    let neg = (a.m < 0) != (b.m < 0);
    let q0 = num / den;
    if q0 >= DEC_LIMIT {
        proof {
            lemma_div_too_large(neg, num as nat, den as nat);
        }
        return None;
    }
    let mut q: u128 = q0;
    let mut rem: u128 = num % den;
    let mut k: u32 = 0;
    proof {
        vstd::arithmetic::div_mod::lemma_fundamental_div_mod(num as int, den as int);
        assert(pow10(0) == 1);
    }
    while k < MAX_SCALE
        invariant
            k <= MAX_SCALE,
            den > 0,
            den < 1_000_000_000_000_000_000_000_000_000_000_000,
            num * pow10(k as nat) == q * den + rem,
            rem < den,
            q < DEC_LIMIT * pow10(k as nat),
            pow10(15) == 1_000_000_000_000_000,
        decreases MAX_SCALE - k,
    {
        proof {
            lemma_pow10_monotone(k as nat, 15);
        }
        assert(rem * 10 < 10_000_000_000_000_000_000_000_000_000_000_000) by (nonlinear_arith)
            requires
                rem < den,
                den < 1_000_000_000_000_000_000_000_000_000_000_000,
        ;
        let t = rem * 10;
        let digit = t / den;
        let next_rem = t % den;
        proof {
            vstd::arithmetic::div_mod::lemma_fundamental_div_mod(t as int, den as int);
            assert(digit < 10) by (nonlinear_arith)
                requires
                    t == den * digit + next_rem,
                    t < 10 * den,
                    next_rem >= 0,
                    den > 0,
            ;
            assert(pow10((k + 1) as nat) == 10 * pow10(k as nat));
            assert(q * 10 + digit < DEC_LIMIT * pow10((k + 1) as nat)) by (nonlinear_arith)
                requires
                    q < DEC_LIMIT * pow10(k as nat),
                    digit < 10,
                    pow10((k + 1) as nat) == 10 * pow10(k as nat),
            ;
            assert(num * pow10((k + 1) as nat) == (q * 10 + digit) * den + next_rem) by (nonlinear_arith)
                requires
                    num * pow10(k as nat) == q * den + rem,
                    pow10((k + 1) as nat) == 10 * pow10(k as nat),
                    t == rem * 10,
                    t == den * digit + next_rem,
            ;
            lemma_pow10_monotone((k + 1) as nat, 15);
            assert(q * 10 + digit < DEC_LIMIT * 1_000_000_000_000_000) by (nonlinear_arith)
                requires
                    q * 10 + digit < DEC_LIMIT * pow10((k + 1) as nat),
                    pow10((k + 1) as nat) <= 1_000_000_000_000_000,
            ;
        }
        q = q * 10 + digit;
        rem = next_rem;
        k += 1;
    }
    proof {
        vstd::arithmetic::div_mod::lemma_fundamental_div_mod_converse(
            (num * pow10(15)) as int,
            den as int,
            q as int,
            rem as int,
        );
    }
    let rounded = if rem >= den - rem {
        q + 1
    } else {
        q
    };
    make_decimal_exec(neg, rounded, MAX_SCALE)
}

// ---------------------------------------------------------------------------
// Values
// ---------------------------------------------------------------------------

/// The errors a cell's value can be.
#[derive(Debug, Clone, Copy, PartialEq, Eq, Structural)]
pub enum ErrorKind {
    Circ,
    Div0,
    Value,
    Ref,
    Name,
    Num,
    NA,
    Error,
}

/// How an error is written.
pub open spec fn error_text(e: ErrorKind) -> Seq<char> {
    match e {
        ErrorKind::Circ => "#CIRC!"@,
        ErrorKind::Div0 => "#DIV/0!"@,
        ErrorKind::Value => "#VALUE!"@,
        ErrorKind::Ref => "#REF!"@,
        ErrorKind::Name => "#NAME?"@,
        ErrorKind::Num => "#NUM!"@,
        ErrorKind::NA => "#N/A"@,
        ErrorKind::Error => "#ERROR!"@,
    }
}

pub fn error_string(e: ErrorKind) -> (s: String)
    ensures
        s@ == error_text(e),
{
    match e {
        ErrorKind::Circ => String::from_str("#CIRC!"),
        ErrorKind::Div0 => String::from_str("#DIV/0!"),
        ErrorKind::Value => String::from_str("#VALUE!"),
        ErrorKind::Ref => String::from_str("#REF!"),
        ErrorKind::Name => String::from_str("#NAME?"),
        ErrorKind::Num => String::from_str("#NUM!"),
        ErrorKind::NA => String::from_str("#N/A"),
        ErrorKind::Error => String::from_str("#ERROR!"),
    }
}

/// The value of a cell.
#[derive(Debug, Clone)]
pub enum CellValue {
    Empty,
    Number(Decimal),
    Text(String),
    Boolean(bool),
    Error(ErrorKind),
}

/// The content of a [`CellValue`].
pub enum ValueView {
    Empty,
    Number(Decimal),
    Text(Seq<char>),
    Boolean(bool),
    Error(ErrorKind),
}

impl View for CellValue {
    type V = ValueView;

    open spec fn view(&self) -> ValueView {
        match self {
            CellValue::Empty => ValueView::Empty,
            CellValue::Number(d) => ValueView::Number(*d),
            CellValue::Text(t) => ValueView::Text(t@),
            CellValue::Boolean(b) => ValueView::Boolean(*b),
            CellValue::Error(e) => ValueView::Error(*e),
        }
    }
}

/// A value whose numbers are well formed.
pub open spec fn wf_value(v: ValueView) -> bool {
    v matches ValueView::Number(d) ==> wf_decimal(d)
}

/// How a value is shown: a number as its decimal text, a boolean as `TRUE`
/// or `FALSE`, an error as its code, and an empty cell as nothing.
pub open spec fn formatted(v: ValueView) -> Seq<char> {
    match v {
        ValueView::Empty => Seq::empty(),
        ValueView::Number(d) => decimal_text(d),
        ValueView::Text(t) => t,
        ValueView::Boolean(b) => if b {
            "TRUE"@
        } else {
            "FALSE"@
        },
        ValueView::Error(e) => error_text(e),
    }
}

/// The text of a value (see [`formatted`]).
pub fn format_value(v: &CellValue) -> (s: String)
    requires
        wf_value(v@),
    ensures
        s@ == formatted(v@),
{
    match v {
        CellValue::Empty => String::new(),
        CellValue::Number(d) => {
            let mut s = String::new();
            push_decimal_fraction(&mut s, d.m < 0, magnitude(d.m) as u128, d.s);
            s
        },
        CellValue::Text(t) => t.clone(),
        CellValue::Boolean(b) => if *b {
            String::from_str("TRUE")
        } else {
            String::from_str("FALSE")
        },
        CellValue::Error(e) => error_string(*e),
    }
}

// ---------------------------------------------------------------------------
// Numbers in text
// ---------------------------------------------------------------------------

/// End of the run of decimal digits that starts at `i`.
pub open spec fn digits_end(t: Seq<char>, i: nat) -> nat
    decreases t.len() - i,
{
    if i < t.len() && is_digit(t[i as int]) {
        digits_end(t, i + 1)
    } else {
        i
    }
}

proof fn lemma_digits_end(t: Seq<char>, i: nat)
    requires
        i <= t.len(),
    ensures
        i <= digits_end(t, i) <= t.len(),
        forall|k: int| i <= k < digits_end(t, i) ==> is_digit(#[trigger] t[k]),
        digits_end(t, i) < t.len() ==> !is_digit(t[digits_end(t, i) as int]),
    decreases t.len() - i,
{
    if i < t.len() && is_digit(t[i as int]) {
        lemma_digits_end(t, i + 1);
    }
}

/// An unsigned decimal number at `i`: digits, and optionally `.` and more
/// digits, at least one digit and at most 30 in all. Gives the number and
/// the index after it.
pub open spec fn unsigned_number_at(t: Seq<char>, i: nat) -> Option<(Decimal, nat)> {
    let j = digits_end(t, i);
    if j < t.len() && t[j as int] == '.' {
        let k = digits_end(t, j + 1);
        let count = (j - i) + (k - j - 1);
        if count == 0 || count > 30 {
            None
        } else {
            match make_decimal(
                false,
                digits_value(t.subrange(i as int, j as int) + t.subrange(j + 1int, k as int)) as nat,
                (k - j - 1) as nat,
            ) {
                Some(d) => Some((d, k)),
                None => None,
            }
        }
    } else if j == i || j - i > 30 {
        None
    } else {
        match make_decimal(false, digits_value(t.subrange(i as int, j as int)) as nat, 0) {
            Some(d) => Some((d, j)),
            None => None,
        }
    }
}

/// `d` with its sign changed.
pub open spec fn negated(d: Decimal) -> Decimal {
    Decimal { m: (-d.m) as i128, s: d.s }
}

/// A number written as text: an optional sign and an unsigned number, with
/// nothing after it.
pub open spec fn number_literal(t: Seq<char>) -> Option<Decimal> {
    let start: nat = if t.len() > 0 && (t[0] == '-' || t[0] == '+') {
        1
    } else {
        0
    };
    match unsigned_number_at(t, start) {
        Some((d, end)) => if end == t.len() {
            Some(
                if start == 1 && t[0] == '-' {
                    negated(d)
                } else {
                    d
                },
            )
        } else {
            None
        },
        None => None,
    }
}

proof fn lemma_digits_value_bound(s: Seq<char>)
    requires
        forall|i: int| 0 <= i < s.len() ==> is_digit(#[trigger] s[i]),
    ensures
        0 <= digits_value(s) < pow10(s.len()),
    decreases s.len(),
{
    if s.len() > 0 {
        lemma_digits_value_bound(s.drop_last());
        assert(pow10(s.len()) == 10 * pow10(s.drop_last().len()));
    }
}

/// Reads digits `t[i..j]` into `acc`, which holds the value of the digits
/// read before them.
fn read_digits(t: &str, i: usize, j: usize, acc: u128, Ghost(before): Ghost<Seq<char>>) -> (r: u128)
    requires
        i <= j <= t@.len(),
        forall|k: int| i <= k < j ==> is_digit(#[trigger] t@[k]),
        forall|k: int| 0 <= k < before.len() ==> is_digit(#[trigger] before[k]),
        acc == digits_value(before),
        before.len() + (j - i) <= 30,
    ensures
        r == digits_value(before + t@.subrange(i as int, j as int)),
{
    let mut v = acc;
    let mut k = i;
    proof {
        lemma_pow10_values();
        assert(before + t@.subrange(i as int, i as int) =~= before);
    }
    while k < j
        invariant
            i <= k <= j <= t@.len(),
            forall|x: int| i <= x < j ==> is_digit(#[trigger] t@[x]),
            forall|x: int| 0 <= x < before.len() ==> is_digit(#[trigger] before[x]),
            before.len() + (j - i) <= 30,
            v == digits_value(before + t@.subrange(i as int, k as int)),
            pow10(30) == 1_000_000_000_000_000_000_000_000_000_000,
        decreases j - k,
    {
        let ghost next = before + t@.subrange(i as int, k + 1);
        assert(next.drop_last() =~= before + t@.subrange(i as int, k as int));
        proof {
            lemma_digits_value_bound(next);
            lemma_pow10_monotone(next.len(), 30);
        }
        let c = t.get_char(k);
        v = v * 10 + (c as u32 - 48) as u128;
        k += 1;
    }
    v
}

fn digits_end_exec(t: &str, i: usize) -> (j: usize)
    requires
        i <= t@.len(),
    ensures
        j == digits_end(t@, i as nat),
{
    let n = t.unicode_len();
    let mut j = i;
    while j < n && '0' <= t.get_char(j) && t.get_char(j) <= '9'
        invariant
            n == t@.len(),
            i <= j <= n,
            digits_end(t@, i as nat) == digits_end(t@, j as nat),
        decreases n - j,
    {
        j += 1;
    }
    j
}

/// Reads an unsigned number at `i` (see [`unsigned_number_at`]).
fn unsigned_number(t: &str, i: usize) -> (r: Option<(Decimal, usize)>)
    requires
        i <= t@.len(),
    ensures
        match unsigned_number_at(t@, i as nat) {
            Some((d, k)) => r matches Some((x, y)) && x == d && y == k,
            None => r is None,
        },
        r matches Some((d, _)) ==> wf_decimal(d),
{
    let n = t.unicode_len();
    let j = digits_end_exec(t, i);
    proof {
        lemma_digits_end(t@, i as nat);
    }
    if j < n && t.get_char(j) == '.' {
        let k = digits_end_exec(t, j + 1);
        proof {
            lemma_digits_end(t@, (j + 1) as nat);
        }
        let count = (j - i) + (k - j - 1);
        if count == 0 || count > 30 {
            return None;
        }
        let int_part = read_digits(t, i, j, 0, Ghost(Seq::empty()));
        assert(Seq::<char>::empty() + t@.subrange(i as int, j as int) =~= t@.subrange(i as int, j as int));
        let all = read_digits(t, j + 1, k, int_part, Ghost(t@.subrange(i as int, j as int)));
        let scale = (k - j - 1) as u32;
        match make_decimal_exec(false, all, scale) {
            Some(d) => Some((d, k)),
            None => None,
        }
    } else {
        if j == i || j - i > 30 {
            return None;
        }
        let v = read_digits(t, i, j, 0, Ghost(Seq::empty()));
        assert(Seq::<char>::empty() + t@.subrange(i as int, j as int) =~= t@.subrange(i as int, j as int));
        match make_decimal_exec(false, v, 0) {
            Some(d) => Some((d, j)),
            None => None,
        }
    }
}

/// The number a text writes, if it writes one (see [`number_literal`]).
pub fn parse_number(t: &str) -> (r: Option<Decimal>)
    ensures
        r == number_literal(t@),
        r matches Some(d) ==> wf_decimal(d),
{
    let n = t.unicode_len();
    let start: usize = if n > 0 && (t.get_char(0) == '-' || t.get_char(0) == '+') {
        1
    } else {
        0
    };
    match unsigned_number(t, start) {
        Some((d, end)) => {
            if end == n {
                if start == 1 && t.get_char(0) == '-' {
                    Some(Decimal { m: -d.m, s: d.s })
                } else {
                    Some(d)
                }
            } else {
                None
            }
        },
        None => None,
    }
}

// ---------------------------------------------------------------------------
// Inputs
// ---------------------------------------------------------------------------

/// What an input holds: nothing, a formula (the text after `=`), or a value.
pub enum ContentView {
    Empty,
    Formula(Seq<char>),
    Value(ValueView),
}

/// The error an input names (`#DIV/0!`, `#N/A`, ...), in any letter case.
pub open spec fn error_literal(t: Seq<char>) -> Option<ErrorKind> {
    let u = upper_text(t);
    if u == "#CIRC!"@ {
        Some(ErrorKind::Circ)
    } else if u == "#DIV/0!"@ {
        Some(ErrorKind::Div0)
    } else if u == "#VALUE!"@ {
        Some(ErrorKind::Value)
    } else if u == "#REF!"@ {
        Some(ErrorKind::Ref)
    } else if u == "#NAME?"@ {
        Some(ErrorKind::Name)
    } else if u == "#NUM!"@ {
        Some(ErrorKind::Num)
    } else if u == "#N/A"@ {
        Some(ErrorKind::NA)
    } else if u == "#ERROR!"@ {
        Some(ErrorKind::Error)
    } else {
        None
    }
}

/// What typed text means: nothing when empty, a formula after `=`, text
/// after `'`, `TRUE` or `FALSE` in any case, an error code, a number, and
/// otherwise text.
pub open spec fn classify(t: Seq<char>) -> ContentView {
    if t.len() == 0 {
        ContentView::Empty
    } else if t[0] == '=' {
        ContentView::Formula(t.skip(1))
    } else if t[0] == '\'' {
        ContentView::Value(ValueView::Text(t.skip(1)))
    } else if upper_text(t) == "TRUE"@ {
        ContentView::Value(ValueView::Boolean(true))
    } else if upper_text(t) == "FALSE"@ {
        ContentView::Value(ValueView::Boolean(false))
    } else if error_literal(t) is Some {
        ContentView::Value(ValueView::Error(error_literal(t).unwrap()))
    } else if number_literal(t) is Some {
        ContentView::Value(ValueView::Number(number_literal(t).unwrap()))
    } else {
        ContentView::Value(ValueView::Text(t))
    }
}

/// What an input holds (see [`classify`]).
pub enum Content {
    Empty,
    Formula(String),
    Value(CellValue),
}

impl View for Content {
    type V = ContentView;

    open spec fn view(&self) -> ContentView {
        match self {
            Content::Empty => ContentView::Empty,
            Content::Formula(f) => ContentView::Formula(f@),
            Content::Value(v) => ContentView::Value(v@),
        }
    }
}

fn upper_is(u: &str, word: &str) -> (r: bool)
    ensures
        r == (u@ == word@),
{
    crate::text::str_eq(u, word)
}

fn error_literal_exec(t: &str) -> (r: Option<ErrorKind>)
    ensures
        r == error_literal(t@),
{
    let u = crate::datatable::to_ascii_upper(t);
    let u = u.as_str();
    if upper_is(u, "#CIRC!") {
        Some(ErrorKind::Circ)
    } else if upper_is(u, "#DIV/0!") {
        Some(ErrorKind::Div0)
    } else if upper_is(u, "#VALUE!") {
        Some(ErrorKind::Value)
    } else if upper_is(u, "#REF!") {
        Some(ErrorKind::Ref)
    } else if upper_is(u, "#NAME?") {
        Some(ErrorKind::Name)
    } else if upper_is(u, "#NUM!") {
        Some(ErrorKind::Num)
    } else if upper_is(u, "#N/A") {
        Some(ErrorKind::NA)
    } else if upper_is(u, "#ERROR!") {
        Some(ErrorKind::Error)
    } else {
        None
    }
}

/// What typed text means (see [`classify`]).
pub fn classify_input(t: &str) -> (c: Content)
    ensures
        c@ == classify(t@),
        c@ matches ContentView::Value(v) ==> wf_value(v),
{
    let n = t.unicode_len();
    if n == 0 {
        return Content::Empty;
    }
    let first = t.get_char(0);
    if first == '=' {
        return Content::Formula(String::from_str(t.substring_char(1, n)));
    }
    if first == '\'' {
        return Content::Value(CellValue::Text(String::from_str(t.substring_char(1, n))));
    }
    let u = crate::datatable::to_ascii_upper(t);
    if upper_is(u.as_str(), "TRUE") {
        return Content::Value(CellValue::Boolean(true));
    }
    if upper_is(u.as_str(), "FALSE") {
        return Content::Value(CellValue::Boolean(false));
    }
    match error_literal_exec(t) {
        Some(e) => {
            return Content::Value(CellValue::Error(e));
        },
        None => {},
    }
    match parse_number(t) {
        Some(d) => Content::Value(CellValue::Number(d)),
        None => Content::Value(CellValue::Text(String::from_str(t))),
    }
}

// ---------------------------------------------------------------------------
// Formulas
// ---------------------------------------------------------------------------

/// A binary operator.
#[derive(Debug, Clone, Copy, PartialEq, Eq, Structural)]
pub enum BinOp {
    Add,
    Sub,
    Mul,
    Div,
}

/// A function of the numbers of a range.
#[derive(Debug, Clone, Copy, PartialEq, Eq, Structural)]
pub enum RangeFn {
    /// `SUM`: their sum.
    Sum,
    /// `AVERAGE`: their mean, `#DIV/0!` without numbers.
    Average,
}

/// A parsed formula.
#[derive(Debug)]
pub enum Expr {
    Number(Decimal),
    /// A cell of the formula's own sheet: 1-based row and column.
    Ref(i32, i32),
    Neg(Box<Expr>),
    Binary(BinOp, Box<Expr>, Box<Expr>),
    /// A function of a range of the formula's own sheet: top, left,
    /// bottom and right (1-based, inclusive).
    Range(RangeFn, i32, i32, i32, i32),
}

/// Number of nodes of an expression.
pub open spec fn expr_size(e: Expr) -> nat
    decreases e,
{
    match e {
        Expr::Number(_) => 1,
        Expr::Ref(_, _) => 1,
        Expr::Range(..) => 1,
        Expr::Neg(x) => 1 + expr_size(*x),
        Expr::Binary(_, l, r) => 1 + expr_size(*l) + expr_size(*r),
    }
}

/// An expression whose numbers are well formed.
pub open spec fn wf_expr(e: Expr) -> bool
    decreases e,
{
    match e {
        Expr::Number(d) => wf_decimal(d),
        Expr::Ref(_, _) => true,
        Expr::Range(_, top, left, bottom, right) => 1 <= top <= bottom <= LAST_ROW && 1 <= left <= right
            <= LAST_COLUMN,
        Expr::Neg(x) => wf_expr(*x),
        Expr::Binary(_, l, r) => wf_expr(*l) && wf_expr(*r),
    }
}

/// Index of the first non-space character at or after `i`.
pub open spec fn space_skip(t: Seq<char>, i: nat) -> nat
    decreases t.len() - i,
{
    if i < t.len() && t[i as int] == ' ' {
        space_skip(t, i + 1)
    } else {
        i
    }
}

pub proof fn lemma_space_skip(t: Seq<char>, i: nat)
    requires
        i <= t.len(),
    ensures
        i <= space_skip(t, i) <= t.len(),
    decreases t.len() - i,
{
    if i < t.len() && t[i as int] == ' ' {
        lemma_space_skip(t, i + 1);
    }
}

pub open spec fn is_alpha(c: char) -> bool {
    ('A' <= c <= 'Z') || ('a' <= c <= 'z')
}

/// End of the run of ASCII letters that starts at `i`.
pub open spec fn alpha_end(t: Seq<char>, i: nat) -> nat
    decreases t.len() - i,
{
    if i < t.len() && is_alpha(t[i as int]) {
        alpha_end(t, i + 1)
    } else {
        i
    }
}

proof fn lemma_alpha_end(t: Seq<char>, i: nat)
    requires
        i <= t.len(),
    ensures
        i <= alpha_end(t, i) <= t.len(),
        forall|k: int| i <= k < alpha_end(t, i) ==> is_alpha(#[trigger] t[k]),
        alpha_end(t, i) < t.len() ==> !is_alpha(t[alpha_end(t, i) as int]),
    decreases t.len() - i,
{
    if i < t.len() && is_alpha(t[i as int]) {
        lemma_alpha_end(t, i + 1);
    }
}

/// A cell reference at `k`: an optional `$`, one to three letters (in
/// either case), an optional `$`, and one to seven digits, naming a cell of
/// a sheet.
pub open spec fn ref_at(t: Seq<char>, k: nat) -> Option<(Expr, nat)> {
    let a: nat = if k < t.len() && t[k as int] == '$' {
        k + 1
    } else {
        k
    };
    let b = alpha_end(t, a);
    let c: nat = if b < t.len() && t[b as int] == '$' {
        b + 1
    } else {
        b
    };
    let d = digits_end(t, c);
    let column = letters_value(upper_text(t.subrange(a as int, b as int))) + 1;
    let row = digits_value(t.subrange(c as int, d as int));
    if b == a || b > a + 3 || d == c || d > c + 7 {
        None
    } else if 1 <= row <= LAST_ROW && column <= LAST_COLUMN {
        Some((Expr::Ref(row as i32, column as i32), d))
    } else {
        None
    }
}

/// The range function a name stands for: `SUM` or `AVERAGE`, in any
/// letter case.
pub open spec fn range_fn_named(name: Seq<char>) -> Option<RangeFn> {
    if upper_text(name) == "SUM"@ {
        Some(RangeFn::Sum)
    } else if upper_text(name) == "AVERAGE"@ {
        Some(RangeFn::Average)
    } else {
        None
    }
}

pub open spec fn min_i32(a: i32, b: i32) -> i32 {
    if a <= b {
        a
    } else {
        b
    }
}

pub open spec fn max_i32(a: i32, b: i32) -> i32 {
    if a >= b {
        a
    } else {
        b
    }
}

/// A range function at `k`: its name, `(`, two cell references joined by
/// `:`, and `)`, with spaces allowed inside the parentheses. Gives the
/// function of the range the two cells span, and the index after `)`.
pub open spec fn range_call_at(t: Seq<char>, k: nat) -> Option<(Expr, nat)> {
    let b = alpha_end(t, k);
    match range_fn_named(t.subrange(k as int, b as int)) {
        None => None,
        Some(f) => if b < t.len() && t[b as int] == '(' {
            match ref_at(t, space_skip(t, b + 1)) {
                Some((Expr::Ref(r1, c1), j1)) => if j1 < t.len() && t[j1 as int] == ':' {
                    match ref_at(t, j1 + 1) {
                        Some((Expr::Ref(r2, c2), j2)) => if space_skip(t, j2) < t.len() && t[space_skip(
                            t,
                            j2,
                        ) as int] == ')' {
                            Some(
                                (
                                    Expr::Range(f, min_i32(r1, r2), min_i32(c1, c2), max_i32(r1, r2), max_i32(c1, c2)),
                                    space_skip(t, j2) + 1,
                                ),
                            )
                        } else {
                            None
                        },
                        _ => None,
                    }
                } else {
                    None
                },
                _ => None,
            }
        } else {
            None
        },
    }
}

/// The operator `c` stands for at a precedence level: `+` and `-` at level
/// 2, `*` and `/` at level 1.
pub open spec fn op_at_level(c: char, level: nat) -> Option<BinOp> {
    if level == 2 && c == '+' {
        Some(BinOp::Add)
    } else if level == 2 && c == '-' {
        Some(BinOp::Sub)
    } else if level == 1 && c == '*' {
        Some(BinOp::Mul)
    } else if level == 1 && c == '/' {
        Some(BinOp::Div)
    } else {
        None
    }
}

/// The expression at `i` of precedence `level` (2: sums, 1: products, 0:
/// signed operands), and the index after it. Spaces may stand between
/// tokens.
pub open spec fn parse_level(t: Seq<char>, i: nat, level: nat) -> Option<(Expr, nat)>
    decreases t.len() - i, level,
{
    if i > t.len() {
        None
    } else if level >= 1 {
        match parse_level(t, i, (level - 1) as nat) {
            Some((e, j)) => if j <= i || j > t.len() {
                None
            } else {
                parse_rest(t, e, j, level)
            },
            None => None,
        }
    } else {
        proof {
            lemma_space_skip(t, i);
        }
        let k = space_skip(t, i);
        if k >= t.len() {
            None
        } else if t[k as int] == '-' {
            match parse_level(t, k + 1, 0) {
                Some((e, j)) => Some((Expr::Neg(Box::new(e)), j)),
                None => None,
            }
        } else if t[k as int] == '+' {
            parse_level(t, k + 1, 0)
        } else if t[k as int] == '(' {
            match parse_level(t, k + 1, 2) {
                Some((e, j)) => if j <= t.len() && space_skip(t, j) < t.len() && t[space_skip(t, j) as int] == ')' {
                    Some((e, space_skip(t, j) + 1))
                } else {
                    None
                },
                None => None,
            }
        } else if is_digit(t[k as int]) || t[k as int] == '.' {
            match unsigned_number_at(t, k) {
                Some((d, j)) => Some((Expr::Number(d), j)),
                None => None,
            }
        } else {
            match range_call_at(t, k) {
                Some(x) => Some(x),
                None => ref_at(t, k),
            }
        }
    }
}

/// The operators of `level` and their operands after `lhs`, from `i`.
pub open spec fn parse_rest(t: Seq<char>, lhs: Expr, i: nat, level: nat) -> Option<(Expr, nat)>
    decreases t.len() - i, level,
{
    if i > t.len() {
        None
    } else {
        proof {
            lemma_space_skip(t, i);
        }
        let k = space_skip(t, i);
        if k < t.len() && op_at_level(t[k as int], level) is Some && level >= 1 {
            match parse_level(t, k + 1, (level - 1) as nat) {
                Some((rhs, j)) => if j <= i || j > t.len() {
                    None
                } else {
                    parse_rest(
                        t,
                        Expr::Binary(op_at_level(t[k as int], level).unwrap(), Box::new(lhs), Box::new(rhs)),
                        j,
                        level,
                    )
                },
                None => None,
            }
        } else {
            Some((lhs, i))
        }
    }
}

/// The expression a formula's text (after `=`) writes, with nothing but
/// spaces after it.
pub open spec fn parse_formula(t: Seq<char>) -> Option<Expr> {
    match parse_level(t, 0, 2) {
        Some((e, j)) => if j <= t.len() && space_skip(t, j) == t.len() {
            Some(e)
        } else {
            None
        },
        None => None,
    }
}

fn space_skip_exec(t: &str, n: usize, i: usize) -> (k: usize)
    requires
        n == t@.len(),
        i <= n,
    ensures
        k == space_skip(t@, i as nat),
        i <= k <= n,
{
    let mut k = i;
    while k < n && t.get_char(k) == ' '
        invariant
            n == t@.len(),
            i <= k <= n,
            space_skip(t@, i as nat) == space_skip(t@, k as nat),
        decreases n - k,
    {
        k += 1;
    }
    k
}

fn alpha_end_exec(t: &str, n: usize, i: usize) -> (k: usize)
    requires
        n == t@.len(),
        i <= n,
    ensures
        k == alpha_end(t@, i as nat),
{
    let mut k = i;
    while k < n && (('A' <= t.get_char(k) && t.get_char(k) <= 'Z') || ('a' <= t.get_char(k)
        && t.get_char(k) <= 'z'))
        invariant
            n == t@.len(),
            i <= k <= n,
            alpha_end(t@, i as nat) == alpha_end(t@, k as nat),
        decreases n - k,
    {
        k += 1;
    }
    k
}

/// Reads a cell reference at `k` (see [`ref_at`]).
fn ref_exec(t: &str, n: usize, k: usize) -> (r: Option<(Expr, usize)>)
    requires
        n == t@.len(),
        k <= n,
    ensures
        match ref_at(t@, k as nat) {
            Some((e, j)) => r matches Some((x, y)) && x == e && y == j,
            None => r is None,
        },
        r matches Some((e, _)) ==> wf_expr(e),
        r matches Some((e, j)) ==> (e matches Expr::Ref(row, column) && 1 <= row <= LAST_ROW && 1 <= column
            <= LAST_COLUMN && k < j <= n),
{
    let a = if k < n && t.get_char(k) == '$' {
        k + 1
    } else {
        k
    };
    let b = alpha_end_exec(t, n, a);
    proof {
        lemma_alpha_end(t@, a as nat);
    }
    let c = if b < n && t.get_char(b) == '$' {
        b + 1
    } else {
        b
    };
    let d = digits_end_exec(t, c);
    proof {
        lemma_digits_end(t@, c as nat);
    }
    if b == a || b - a > 3 || d == c || d - c > 7 {
        return None;
    }
    let ghost letters = t@.subrange(a as int, b as int);
    let mut col: i32 = -1;
    let mut x = a;
    while x < b
        invariant
            a <= x <= b <= a + 3,
            b <= n,
            n == t@.len(),
            forall|q: int| a <= q < b ==> is_alpha(#[trigger] t@[q]),
            col == letters_value(upper_text(t@.subrange(a as int, x as int))),
            -1 <= col <= 18277,
            x > a ==> col >= 0,
        decreases b - x,
    {
        let ch = t.get_char(x);
        let u: u32 = if 'a' <= ch && ch <= 'z' {
            ch as u32 - 32
        } else {
            ch as u32
        };
        proof {
            let pre = t@.subrange(a as int, x as int);
            let next = t@.subrange(a as int, x + 1);
            assert(next.drop_last() =~= pre);
            assert(upper_text(next) =~= upper_text(pre).push(ascii_upper(ch)));
            assert(upper_text(next).drop_last() =~= upper_text(pre));
            assert(ascii_upper(ch) as u32 == u);
            assert forall|q: int| 0 <= q < upper_text(next).len() implies is_upper_letter(
                #[trigger] upper_text(next)[q],
            ) by {
                assert(is_alpha(t@[a + q]));
            }
            lemma_letters_value_bound(upper_text(next));
        }
        col = (col + 1) * 26 + (u - 65) as i32;
        x += 1;
    }
    let rv = read_digits(t, c, d, 0, Ghost(Seq::empty()));
    assert(Seq::<char>::empty() + t@.subrange(c as int, d as int) =~= t@.subrange(c as int, d as int));
    proof {
        lemma_digits_value_bound(t@.subrange(c as int, d as int));
        lemma_pow10_monotone((d - c) as nat, 7);
        reveal_with_fuel(pow10, 8);
    }
    let row = rv as i32;
    if 1 <= row && row <= LAST_ROW && col + 1 <= LAST_COLUMN {
        Some((Expr::Ref(row, col + 1), d))
    } else {
        None
    }
}

fn letter_is(c: char, upper: char) -> (r: bool)
    requires
        'A' <= upper <= 'Z',
    ensures
        r == (ascii_upper(c) == upper),
{
    c == upper || (c as u32) == (upper as u32) + 32
}

/// The range function the letters `t[k..b]` name (see [`range_fn_named`]).
fn range_fn_exec(t: &str, k: usize, b: usize) -> (r: Option<RangeFn>)
    requires
        k <= b <= t@.len(),
    ensures
        r == range_fn_named(t@.subrange(k as int, b as int)),
{
    proof {
        reveal_strlit("SUM");
        reveal_strlit("AVERAGE");
    }
    let ghost sub = t@.subrange(k as int, b as int);
    let ghost u = upper_text(sub);
    assert(u.len() == b - k);
    assert forall|q: int| 0 <= q < b - k implies u[q] == ascii_upper(#[trigger] t@[k + q]) by {
        assert(sub[q] == t@[k + q]);
    }
    if b - k == 3 {
        let s0 = letter_is(t.get_char(k), 'S');
        let s1 = letter_is(t.get_char(k + 1), 'U');
        let s2 = letter_is(t.get_char(k + 2), 'M');
        assert(u[0] == ascii_upper(t@[k + 0]));
        assert(u[1] == ascii_upper(t@[k + 1]));
        assert(u[2] == ascii_upper(t@[k + 2]));
        if s0 && s1 && s2 {
            assert(u =~= "SUM"@);
            Some(RangeFn::Sum)
        } else {
            assert(u != "SUM"@);
            None
        }
    } else if b - k == 7 {
        let a0 = letter_is(t.get_char(k), 'A');
        let a1 = letter_is(t.get_char(k + 1), 'V');
        let a2 = letter_is(t.get_char(k + 2), 'E');
        let a3 = letter_is(t.get_char(k + 3), 'R');
        let a4 = letter_is(t.get_char(k + 4), 'A');
        let a5 = letter_is(t.get_char(k + 5), 'G');
        let a6 = letter_is(t.get_char(k + 6), 'E');
        assert(u[0] == ascii_upper(t@[k + 0]));
        assert(u[1] == ascii_upper(t@[k + 1]));
        assert(u[2] == ascii_upper(t@[k + 2]));
        assert(u[3] == ascii_upper(t@[k + 3]));
        assert(u[4] == ascii_upper(t@[k + 4]));
        assert(u[5] == ascii_upper(t@[k + 5]));
        assert(u[6] == ascii_upper(t@[k + 6]));
        if a0 && a1 && a2 && a3 && a4 && a5 && a6 {
            assert(u =~= "AVERAGE"@);
            Some(RangeFn::Average)
        } else {
            assert(u != "AVERAGE"@);
            None
        }
    } else {
        None
    }
}

fn min_exec(a: i32, b: i32) -> (r: i32)
    ensures
        r == min_i32(a, b),
{
    if a <= b {
        a
    } else {
        b
    }
}

fn max_exec(a: i32, b: i32) -> (r: i32)
    ensures
        r == max_i32(a, b),
{
    if a >= b {
        a
    } else {
        b
    }
}

/// Reads a range function at `k` (see [`range_call_at`]).
fn range_call_exec(t: &str, n: usize, k: usize) -> (r: Option<(Expr, usize)>)
    requires
        n == t@.len(),
        k <= n,
    ensures
        match range_call_at(t@, k as nat) {
            Some((e, j)) => r matches Some((x, y)) && x == e && y == j,
            None => r is None,
        },
        r matches Some((e, _)) ==> wf_expr(e),
{
    let b = alpha_end_exec(t, n, k);
    proof {
        lemma_alpha_end(t@, k as nat);
    }
    let f = match range_fn_exec(t, k, b) {
        Some(f) => f,
        None => return None,
    };
    if !(b < n && t.get_char(b) == '(') {
        return None;
    }
    let j = space_skip_exec(t, n, b + 1);
    let (r1, c1, j1) = match ref_exec(t, n, j) {
        Some((Expr::Ref(r1, c1), j1)) => (r1, c1, j1),
        _ => return None,
    };
    if !(j1 < n && t.get_char(j1) == ':') {
        return None;
    }
    let (r2, c2, j2) = match ref_exec(t, n, j1 + 1) {
        Some((Expr::Ref(r2, c2), j2)) => (r2, c2, j2),
        _ => return None,
    };
    let e = space_skip_exec(t, n, j2);
    if !(e < n && t.get_char(e) == ')') {
        return None;
    }
    Some(
        (
            Expr::Range(f, min_exec(r1, r2), min_exec(c1, c2), max_exec(r1, r2), max_exec(c1, c2)),
            e + 1,
        ),
    )
}

fn op_exec(c: char, level: u8) -> (r: Option<BinOp>)
    ensures
        r == op_at_level(c, level as nat),
{
    if level == 2 && c == '+' {
        Some(BinOp::Add)
    } else if level == 2 && c == '-' {
        Some(BinOp::Sub)
    } else if level == 1 && c == '*' {
        Some(BinOp::Mul)
    } else if level == 1 && c == '/' {
        Some(BinOp::Div)
    } else {
        None
    }
}

/// Parses the expression of precedence `level` at `i` (see [`parse_level`]).
fn parse_level_exec(t: &str, n: usize, i: usize, level: u8) -> (r: Option<(Expr, usize)>)
    requires
        n == t@.len(),
        level <= 2,
    ensures
        match parse_level(t@, i as nat, level as nat) {
            Some((e, j)) => r matches Some((x, y)) && x == e && y == j,
            None => r is None,
        },
        r matches Some((e, _)) ==> wf_expr(e),
    decreases n - i, level,
{
    if i > n {
        return None;
    }
    if level >= 1 {
        match parse_level_exec(t, n, i, level - 1) {
            Some((e, j)) => {
                if j <= i || j > n {
                    None
                } else {
                    parse_rest_exec(t, n, e, j, level)
                }
            },
            None => None,
        }
    } else {
        let k = space_skip_exec(t, n, i);
        if k >= n {
            return None;
        }
        let c = t.get_char(k);
        if c == '-' {
            match parse_level_exec(t, n, k + 1, 0) {
                Some((e, j)) => Some((Expr::Neg(Box::new(e)), j)),
                None => None,
            }
        } else if c == '+' {
            parse_level_exec(t, n, k + 1, 0)
        } else if c == '(' {
            match parse_level_exec(t, n, k + 1, 2) {
                Some((e, j)) => {
                    if j <= n {
                        let j2 = space_skip_exec(t, n, j);
                        if j2 < n && t.get_char(j2) == ')' {
                            return Some((e, j2 + 1));
                        }
                    }
                    None
                },
                None => None,
            }
        } else if ('0' <= c && c <= '9') || c == '.' {
            match unsigned_number(t, k) {
                Some((d, j)) => Some((Expr::Number(d), j)),
                None => None,
            }
        } else {
            match range_call_exec(t, n, k) {
                Some(x) => Some(x),
                None => ref_exec(t, n, k),
            }
        }
    }
}

fn parse_rest_exec(t: &str, n: usize, lhs: Expr, i: usize, level: u8) -> (r: Option<(Expr, usize)>)
    requires
        n == t@.len(),
        level <= 2,
        wf_expr(lhs),
    ensures
        r matches Some((e, _)) ==> wf_expr(e),
        match parse_rest(t@, lhs, i as nat, level as nat) {
            Some((e, j)) => r matches Some((x, y)) && x == e && y == j,
            None => r is None,
        },
    decreases n - i, level,
{
    if i > n {
        return None;
    }
    let k = space_skip_exec(t, n, i);
    if k < n && level >= 1 {
        match op_exec(t.get_char(k), level) {
            Some(op) => {
                match parse_level_exec(t, n, k + 1, level - 1) {
                    Some((rhs, j)) => {
                        if j <= i || j > n {
                            None
                        } else {
                            parse_rest_exec(t, n, Expr::Binary(op, Box::new(lhs), Box::new(rhs)), j, level)
                        }
                    },
                    None => None,
                }
            },
            None => Some((lhs, i)),
        }
    } else {
        Some((lhs, i))
    }
}

/// Parses the text of a formula after its `=` (see [`parse_formula`]).
pub fn parse_formula_exec(t: &str) -> (r: Option<Expr>)
    ensures
        r == parse_formula(t@),
        r matches Some(e) ==> wf_expr(e),
{
    let n = t.unicode_len();
    match parse_level_exec(t, n, 0, 2) {
        Some((e, j)) => {
            if j <= n && space_skip_exec(t, n, j) == n {
                Some(e)
            } else {
                None
            }
        },
        None => None,
    }
}

// ---------------------------------------------------------------------------
// Evaluation
// ---------------------------------------------------------------------------

/// What cell `(row, column)` of sheet `sheet` holds: its input read as
/// [`classify`] says, `#NUM!` for an input with a number whose decimal text
/// is not known, and nothing for a cell without input.
pub open spec fn cell_content(m: ModelView, sheet: u32, row: i32, column: i32) -> ContentView {
    if sheet >= m.sheets.len() {
        ContentView::Empty
    } else {
        match find_cell(m.sheets[sheet as int].cells, row, column) {
            None => ContentView::Empty,
            Some(k) => match m.sheets[sheet as int].cells[k].input {
                None => ContentView::Empty,
                Some(p) => match render_value(p) {
                    Some(t) => classify(t),
                    None => ContentView::Value(ValueView::Error(ErrorKind::Num)),
                },
            },
        }
    }
}

pub open spec fn zero() -> Decimal {
    Decimal { m: 0, s: 0 }
}

pub open spec fn one() -> Decimal {
    Decimal { m: 1, s: 0 }
}

/// A value as an operand of arithmetic: empty is 0, `TRUE` is 1 and
/// `FALSE` 0, text must write a number, and an error stays an error.
pub open spec fn to_number(v: ValueView) -> Result<Decimal, ErrorKind> {
    match v {
        ValueView::Empty => Ok(zero()),
        ValueView::Number(d) => Ok(d),
        ValueView::Boolean(b) => Ok(if b { one() } else { zero() }),
        ValueView::Text(t) => match number_literal(t) {
            Some(d) => Ok(d),
            None => Err(ErrorKind::Value),
        },
        ValueView::Error(e) => Err(e),
    }
}

/// The result of `a op b`: `#DIV/0!` for a division by zero, `#NUM!` for a
/// result out of range.
pub open spec fn arith(op: BinOp, a: Decimal, b: Decimal) -> ValueView {
    let r = match op {
        BinOp::Add => dec_add(a, b),
        BinOp::Sub => dec_sub(a, b),
        BinOp::Mul => dec_mul(a, b),
        BinOp::Div => if b.m == 0 {
            None
        } else {
            dec_div(a, b)
        },
    };
    if op == BinOp::Div && b.m == 0 {
        ValueView::Error(ErrorKind::Div0)
    } else {
        match r {
            Some(d) => ValueView::Number(d),
            None => ValueView::Error(ErrorKind::Num),
        }
    }
}

/// The value that `overrides` gives cell `key`: the last one listed.
pub open spec fn override_of(overrides: Seq<((u32, i32, i32), ValueView)>, key: (u32, i32, i32)) -> Option<
    ValueView,
>
    decreases overrides.len(),
{
    if overrides.len() == 0 {
        None
    } else if overrides.last().0 == key {
        Some(overrides.last().1)
    } else {
        override_of(overrides.drop_last(), key)
    }
}

/// The value that a cell read on a circular path takes during iterative
/// calculation: its value in the previous pass when that is a number, and
/// zero otherwise.
pub open spec fn seed_value(seeds: Seq<((u32, i32, i32), ValueView)>, key: (u32, i32, i32)) -> ValueView {
    match override_of(seeds, key) {
        Some(ValueView::Number(d)) => ValueView::Number(d),
        _ => ValueView::Number(zero()),
    }
}

// ---------------------------------------------------------------------------
// Values of numbers without exact text
// ---------------------------------------------------------------------------

/// The number of decimal places kept of a value whose integer part is
/// `i`: 15 significant digits, at most 15 places.
pub open spec fn kept_places(i: nat) -> nat {
    if i == 0 {
        15
    } else if decimal(i).len() >= 15 {
        0
    } else {
        (15 - decimal(i).len()) as nat
    }
}

/// The value `±mant * 2^exp` rounded to 15 significant digits and at most
/// 15 places (ties away from zero), when it is within the range of
/// decimals.
pub open spec fn binary_decimal(neg: bool, mant: nat, exp: int) -> Option<Decimal> {
    if exp >= 0 {
        make_decimal(neg, mant * two_pow(exp as nat), 0)
    } else {
        let p = two_pow((-exp) as nat);
        let places = kept_places(mant / p);
        make_decimal(neg, round_div(mant * pow10(places), p), places)
    }
}

/// The little-endian value of the bytes `s`.
pub open spec fn le_value(s: Seq<u8>) -> nat
    decreases s.len(),
{
    if s.len() == 0 {
        0
    } else {
        (s[0] + 256 * le_value(s.skip(1))) as nat
    }
}

/// The decimal value of a number read from a file, for the numbers whose
/// decimal text does not follow from integer arithmetic: a double or an
/// x87 extended double rounded to 15 significant digits (see
/// [`binary_decimal`]), and a
/// packed number with a decimal factor (0.05 to 0.00005) as that exact
/// decimal. `None` for infinities, NaN, and values out of range.
pub open spec fn number_decimal(n: Number) -> Option<Decimal> {
    match n {
        Number::Double(bits) => {
            let e = (bits as int / 0x10_0000_0000_0000) % 2048;
            let f = (bits as int % 0x10_0000_0000_0000) as nat;
            let neg = bits >= 0x8000_0000_0000_0000u64;
            if e == 2047 {
                None
            } else if e == 0 {
                binary_decimal(neg, f, -1074)
            } else {
                binary_decimal(neg, f + 0x10_0000_0000_0000, e - 1075)
            }
        },
        Number::Small(v) => {
            let k = v as int / 16;
            let idx = (v as int / 2) % 8;
            if v as int % 2 == 1 && 2 <= idx <= 5 {
                make_decimal(k < 0, abs(k) * 5, idx as nat)
            } else {
                None
            }
        },
        Number::Extended(b) => {
            let raw = b@[8] + 256 * b@[9];
            let e = raw % 32768;
            if e == 0x7FFF {
                None
            } else {
                binary_decimal(raw >= 32768, le_value(b@.subrange(0, 8)), e - 16383 - 63)
            }
        },
    }
}

/// The text a piece is read as: its text, the text of a number when it is
/// known, else the decimal text of the number's value (see
/// [`number_decimal`]); `None` when the number has no value here.
pub open spec fn piece_text(p: PieceView) -> Option<Seq<char>> {
    match p {
        PieceView::Text(t) => Some(t),
        PieceView::Number(n) => match number_text(n) {
            Some(t) => Some(t),
            None => match number_decimal(n) {
                Some(d) => Some(decimal_text(d)),
                None => None,
            },
        },
    }
}

/// The text an input is read as (see [`piece_text`]).
pub open spec fn render_value(v: Seq<PieceView>) -> Option<Seq<char>>
    decreases v.len(),
{
    if v.len() == 0 {
        Some(Seq::empty())
    } else {
        match render_value(v.drop_last()) {
            None => None,
            Some(head) => match piece_text(v.last()) {
                Some(t) => Some(head + t),
                None => None,
            },
        }
    }
}

fn binary_decimal_exec(neg: bool, mant: u64, exp: i32) -> (r: Option<Decimal>)
    ensures
        r == binary_decimal(neg, mant as nat, exp as int),
        r matches Some(d) ==> wf_decimal(d),
{
    proof {
        lemma_two_pow_values();
        lemma_pow10_values();
    }
    if exp >= 0 {
        if mant == 0 {
            assert(0 * two_pow(exp as nat) == 0);
            return make_decimal_exec(neg, 0, 0);
        }
        if exp >= 64 {
            proof {
                lemma_two_pow_64();
                lemma_two_pow_monotone(60, exp as nat);
                let t = two_pow(exp as nat);
                assert(mant * t >= t) by (nonlinear_arith)
                    requires
                        mant >= 1,
                        t >= 1,
                ;
                assert(normalized((mant * t) as nat, 0) == ((mant * t) as nat, 0nat));
            }
            return None;
        }
        let p = two_pow_exec(exp as u32);
        proof {
            lemma_two_pow_64();
            lemma_two_pow_monotone(exp as nat, 64);
            assert(mant * p <= 18446744073709551615 * 18446744073709551616) by (nonlinear_arith)
                requires
                    mant <= 18446744073709551615,
                    p <= 18446744073709551616,
            ;
        }
        let v = (mant as u128) * p;
        make_decimal_exec(neg, v, 0)
    } else {
        let k: u32 = (0 - (exp as i64)) as u32;
        if k >= 120 {
            let x: u128 = (mant as u128) * 1_000_000_000_000_000;
            proof {
                lemma_two_pow_monotone(120, k as nat);
                let y = two_pow(k as nat);
                lemma_two_pow_64();
                lemma_two_pow_monotone(64, 120);
                vstd::arithmetic::div_mod::lemma_basic_div(mant as int, y as int);
                assert(mant as nat / y == 0);
                assert(kept_places(0) == 15);
                assert(pow10(15) == 1_000_000_000_000_000);
                assert(x < 664613997892457936451903530140172288int);
                vstd::arithmetic::div_mod::lemma_fundamental_div_mod(x as int, y as int);
                vstd::arithmetic::div_mod::lemma_small_mod(x as nat, y);
                vstd::arithmetic::div_mod::lemma_basic_div(x as int, y as int);
                assert(round_div(x as nat, y) == 0);
                assert(normalized(0, 15) == (0nat, 0nat)) by {
                    reveal_with_fuel(normalized, 17);
                }
            }
            return make_decimal_exec(neg, 0, 0);
        }
        let p = two_pow_exec(k);
        let i = (mant as u128) / p;
        let places: u32 = if i == 0 {
            15
        } else {
            let c = digit_count(i);
            if c >= 15 {
                0
            } else {
                15 - c
            }
        };
        let t = pow10_exec(places);
        proof {
            lemma_pow10_monotone(places as nat, 15);
            assert(pow10(15) == 1_000_000_000_000_000);
            assert(mant * t <= 18446744073709551615 * 1_000_000_000_000_000) by (nonlinear_arith)
                requires
                    mant <= 18446744073709551615,
                    t <= 1_000_000_000_000_000,
            ;
        }
        let x = (mant as u128) * t;
        let q = round_div_exec(x, p);
        make_decimal_exec(neg, q, places)
    }
}

/// The number of decimal digits of `i`.
fn digit_count(i: u128) -> (c: u32)
    ensures
        c as nat == decimal(i as nat).len(),
{
    proof {
        lemma_pow10_values();
        lemma_pow10_add(30, 9);
        reveal_with_fuel(pow10, 10);
        assert(pow10(9) == 1_000_000_000);
        lemma_decimal_len(i as nat, 39);
    }
    let mut x = i;
    let mut c: u32 = 1;
    while x >= 10
        invariant
            decimal(i as nat).len() == c - 1 + decimal(x as nat).len(),
            decimal(i as nat).len() <= 39,
            c >= 1,
        decreases x,
    {
        proof {
            lemma_decimal_reads_back((x / 10) as nat);
        }
        assert(decimal(x as nat).len() == decimal((x / 10) as nat).len() + 1);
        x = x / 10;
        c = c + 1;
    }
    proof {
        lemma_decimal_reads_back(x as nat);
    }
    c
}

proof fn lemma_two_pow_64()
    ensures
        two_pow(8) == 256,
        two_pow(60) == 1152921504606846976,
        two_pow(64) == 18446744073709551616,
{
    reveal_with_fuel(two_pow, 11);
    assert(two_pow(4) == 16);
    assert(two_pow(8) == 256);
    assert(two_pow(10) == 1024);
    lemma_two_pow_add(10, 10);
    assert(two_pow(20) == 1048576);
    lemma_two_pow_add(20, 20);
    assert(two_pow(40) == 1099511627776);
    lemma_two_pow_add(40, 20);
    assert(two_pow(60) == 1152921504606846976);
    lemma_two_pow_add(60, 4);
}

fn double_decimal_exec(bits: u64) -> (r: Option<Decimal>)
    ensures
        r == number_decimal(Number::Double(bits)),
        r matches Some(d) ==> wf_decimal(d),
{
    let e = (bits / 0x10_0000_0000_0000) % 2048;
    let f = bits % 0x10_0000_0000_0000;
    let neg = bits >= 0x8000_0000_0000_0000u64;
    if e == 2047 {
        None
    } else if e == 0 {
        binary_decimal_exec(neg, f, -1074)
    } else {
        let x = binary_decimal_exec(neg, f + 0x10_0000_0000_0000, e as i32 - 1075);
        assert((f + 0x10_0000_0000_0000) as nat == ((bits as int % 0x10_0000_0000_0000) as nat) + 0x10_0000_0000_0000);
        x
    }
}

fn small_decimal_exec(v: i16) -> (r: Option<Decimal>)
    ensures
        r == number_decimal(Number::Small(v)),
        r matches Some(d) ==> wf_decimal(d),
{
    let w = v as i32;
    let k = if w >= 0 {
        w / 16
    } else {
        -((-w + 15) / 16)
    };
    let h = if w >= 0 {
        w / 2
    } else {
        -((-w + 1) / 2)
    };
    let idx = ((h % 8) + 8) % 8;
    assert(k == w as int / 16);
    assert(h == w as int / 2);
    assert(idx == (w as int / 2) % 8);
    let odd = w % 2 != 0;
    assert(odd == (w as int % 2 == 1));
    if odd && 2 <= idx && idx <= 5 {
        let mag: u128 = if k < 0 {
            (-k) as u128
        } else {
            k as u128
        };
        make_decimal_exec(k < 0, mag * 5, idx as u32)
    } else {
        None
    }
}

fn extended_decimal_exec(b: [u8; 10]) -> (r: Option<Decimal>)
    ensures
        r == number_decimal(Number::Extended(b)),
        r matches Some(d) ==> wf_decimal(d),
{
    let raw: u32 = b[8] as u32 + 256 * (b[9] as u32);
    let e = raw % 32768;
    if e == 0x7FFF {
        return None;
    }
    proof {
        lemma_two_pow_64();
    }
    let mut m: u128 = 0;
    let mut i: usize = 8;
    while i > 0
        invariant
            i <= 8,
            m == le_value(b@.subrange(i as int, 8)),
            m < two_pow((8 * (8 - i)) as nat),
            two_pow(8) == 256,
            two_pow(64) == 18446744073709551616,
        decreases i,
    {
        proof {
            let tail = b@.subrange(i - 1, 8);
            assert(tail.skip(1) =~= b@.subrange(i as int, 8));
            assert(tail[0] == b@[i - 1]);
            lemma_two_pow_add((8 * (8 - i)) as nat, 8);
            assert((8 * (8 - i)) as nat + 8 == (8 * (8 - (i - 1))) as nat);
            lemma_two_pow_monotone((8 * (8 - (i - 1))) as nat, 64);
        }
        m = m * 256 + b[i - 1] as u128;
        i -= 1;
    }
    assert(b@.subrange(0, 8) == b@.subrange(0, 8));
    binary_decimal_exec(raw >= 32768, m as u64, e as i32 - 16383 - 63)
}

/// The decimal value of a number (see [`number_decimal`]).
pub fn number_decimal_exec(n: Number) -> (r: Option<Decimal>)
    ensures
        r == number_decimal(n),
        r matches Some(d) ==> wf_decimal(d),
{
    match n {
        Number::Double(bits) => double_decimal_exec(bits),
        Number::Small(v) => small_decimal_exec(v),
        Number::Extended(b) => extended_decimal_exec(b),
    }
}

/// The value of cell `(row, column)` of sheet `sheet`, reached through the
/// formula cells `path`, where the cells listed in `overrides` read as the
/// values given there. A cell on the path is `#CIRC!`, or, while iterating
/// from the values `seeds` of the previous pass, its seed (see
/// [`seed_value`]); any other cell has the value of its input, and a
/// formula that does not parse is `#ERROR!`. `fuel` bounds the depth of
/// references followed.
pub open spec fn eval_cell(
    m: ModelView,
    overrides: Seq<((u32, i32, i32), ValueView)>,
    seeds: Option<Seq<((u32, i32, i32), ValueView)>>,
    sheet: u32,
    row: i32,
    column: i32,
    path: Seq<(u32, i32, i32)>,
    fuel: nat,
) -> ValueView
    decreases fuel, 1nat, 0nat, 0nat,
{
    if override_of(overrides, (sheet, row, column)) is Some {
        override_of(overrides, (sheet, row, column)).unwrap()
    } else if path.contains((sheet, row, column)) {
        match seeds {
            None => ValueView::Error(ErrorKind::Circ),
            Some(sd) => seed_value(sd, (sheet, row, column)),
        }
    } else {
        match cell_content(m, sheet, row, column) {
            ContentView::Empty => ValueView::Empty,
            ContentView::Value(v) => v,
            ContentView::Formula(f) => match parse_formula(f) {
                None => ValueView::Error(ErrorKind::Error),
                Some(e) => eval_expr(m, overrides, seeds, sheet, e, path.push((sheet, row, column)), fuel),
            },
        }
    }
}

/// The value of expression `e` of a formula on sheet `sheet`.
pub open spec fn eval_expr(
    m: ModelView,
    overrides: Seq<((u32, i32, i32), ValueView)>,
    seeds: Option<Seq<((u32, i32, i32), ValueView)>>,
    sheet: u32,
    e: Expr,
    path: Seq<(u32, i32, i32)>,
    fuel: nat,
) -> ValueView
    decreases fuel, 0nat, expr_size(e), 0nat,
{
    match e {
        Expr::Number(d) => ValueView::Number(d),
        Expr::Ref(r, c) => if fuel == 0 {
            ValueView::Error(ErrorKind::Circ)
        } else {
            eval_cell(m, overrides, seeds, sheet, r, c, path, (fuel - 1) as nat)
        },
        Expr::Range(f, top, left, bottom, right) => if fuel == 0 {
            ValueView::Error(ErrorKind::Circ)
        } else {
            match range_fold(m, overrides, seeds, sheet, top, left, bottom, right, 0, zero(), 0, path, fuel) {
                Err(k) => ValueView::Error(k),
                Ok((total, n)) => range_result(f, total, n),
            }
        },
        Expr::Neg(x) => match to_number(eval_expr(m, overrides, seeds, sheet, *x, path, fuel)) {
            Ok(d) => ValueView::Number(negated(d)),
            Err(k) => ValueView::Error(k),
        },
        Expr::Binary(op, l, r) => match to_number(eval_expr(m, overrides, seeds, sheet, *l, path, fuel)) {
            Err(k) => ValueView::Error(k),
            Ok(a) => match to_number(eval_expr(m, overrides, seeds, sheet, *r, path, fuel)) {
                Err(k) => ValueView::Error(k),
                Ok(b) => arith(op, a, b),
            },
        },
    }
}

/// Number of cells of a range (none when its bounds are reversed).
pub open spec fn range_count(top: i32, left: i32, bottom: i32, right: i32) -> nat {
    if top <= bottom && left <= right {
        ((bottom - top + 1) * (right - left + 1)) as nat
    } else {
        0
    }
}

/// The numbers of the cells of a range from the `k`-th on (row by row),
/// added to `total` and counted on from `n`: text, booleans and empty
/// cells are skipped, the first error is the result, and a sum out of the
/// range of decimals is `#NUM!`.
pub open spec fn range_fold(
    m: ModelView,
    overrides: Seq<((u32, i32, i32), ValueView)>,
    seeds: Option<Seq<((u32, i32, i32), ValueView)>>,
    sheet: u32,
    top: i32,
    left: i32,
    bottom: i32,
    right: i32,
    k: nat,
    total: Decimal,
    n: nat,
    path: Seq<(u32, i32, i32)>,
    fuel: nat,
) -> Result<(Decimal, nat), ErrorKind>
    decreases fuel, 0nat, 0nat, range_count(top, left, bottom, right) - k,
{
    if k >= range_count(top, left, bottom, right) || fuel == 0 {
        Ok((total, n))
    } else {
        let w = right - left + 1;
        let row = (top + (k as int) / w) as i32;
        let column = (left + (k as int) % w) as i32;
        match eval_cell(m, overrides, seeds, sheet, row, column, path, (fuel - 1) as nat) {
            ValueView::Number(d) => match dec_add(total, d) {
                Some(t2) => range_fold(m, overrides, seeds, sheet, top, left, bottom, right, k + 1, t2, n + 1, path, fuel),
                None => Err(ErrorKind::Num),
            },
            ValueView::Error(e) => Err(e),
            _ => range_fold(m, overrides, seeds, sheet, top, left, bottom, right, k + 1, total, n, path, fuel),
        }
    }
}

/// The value of a range function given the sum and the count of the
/// numbers of its range.
pub open spec fn range_result(f: RangeFn, total: Decimal, n: nat) -> ValueView {
    match f {
        RangeFn::Sum => ValueView::Number(total),
        RangeFn::Average => if n == 0 {
            ValueView::Error(ErrorKind::Div0)
        } else {
            match dec_div(total, Decimal { m: n as i128, s: 0 }) {
                Some(q) => ValueView::Number(q),
                None => ValueView::Error(ErrorKind::Num),
            }
        },
    }
}

/// Number of cells of the sheets.
pub open spec fn cell_count(sheets: Seq<SheetView>) -> nat
    decreases sheets.len(),
{
    if sheets.len() == 0 {
        0
    } else {
        cell_count(sheets.drop_last()) + sheets.last().cells.len()
    }
}

/// The depth of references followed: one more than the number of cells
/// (a chain of references through distinct cells is no longer), kept
/// within `u64`.
pub open spec fn eval_fuel(m: ModelView) -> nat {
    if cell_count(m.sheets) < u64::MAX {
        cell_count(m.sheets) + 1
    } else {
        u64::MAX as nat
    }
}

/// The value of a cell of the workbook when the cells of `overrides` read
/// as the values given there.
#[verifier::opaque]
pub open spec fn value_with(m: ModelView, overrides: Seq<((u32, i32, i32), ValueView)>, sheet: u32, row: i32, column: i32) -> ValueView {
    if m.calc.iterate {
        iterated_value(m, overrides, sheet, row, column)
    } else {
        eval_cell(m, overrides, None, sheet, row, column, Seq::empty(), eval_fuel(m))
    }
}

/// The value of a cell of the workbook.
pub open spec fn cell_value(m: ModelView, sheet: u32, row: i32, column: i32) -> ValueView {
    value_with(m, Seq::empty(), sheet, row, column)
}

/// The contents of a list of overrides.
pub open spec fn overrides_view(o: Seq<((u32, i32, i32), CellValue)>) -> Seq<((u32, i32, i32), ValueView)> {
    o.map_values(|x: ((u32, i32, i32), CellValue)| (x.0, x.1@))
}

/// Overrides whose numbers are well formed.
pub open spec fn wf_overrides(o: Seq<((u32, i32, i32), ValueView)>) -> bool {
    forall|i: int| 0 <= i < o.len() ==> wf_value(#[trigger] o[i].1)
}

proof fn lemma_render_value_none_extends(v: Seq<PieceView>, i: nat)
    requires
        i <= v.len(),
        render_value(v.take(i as int)) is None,
    ensures
        render_value(v) is None,
    decreases v.len() - i,
{
    if i < v.len() {
        assert(v.take((i + 1) as int).drop_last() =~= v.take(i as int));
        lemma_render_value_none_extends(v, i + 1);
    } else {
        assert(v.take(i as int) =~= v);
    }
}

/// The text an input is read as (see [`render_value`]).
fn render_value_exec(input: &InputText) -> (r: Option<String>)
    ensures
        match render_value(input@) {
            Some(t) => r matches Some(s) && s@ == t,
            None => r is None,
        },
{
    let mut out = String::new();
    let mut i: usize = 0;
    while i < input.pieces.len()
        invariant
            i <= input.pieces@.len(),
            render_value(input@.take(i as int)) == Some(out@),
        decreases input.pieces@.len() - i,
    {
        let ghost pre = input@.take(i as int);
        assert(input@.take(i + 1).drop_last() =~= pre);
        assert(input@[i as int] == input.pieces@[i as int]@);
        match &input.pieces[i] {
            Piece::Text(t) => {
                out.append(t.as_str());
            },
            Piece::Number(n) => {
                match number_text_exec(*n) {
                    Some(t) => out.append(t.as_str()),
                    None => match number_decimal_exec(*n) {
                        Some(d) => push_decimal_fraction(&mut out, d.m < 0, magnitude(d.m) as u128, d.s),
                        None => {
                            proof {
                                lemma_render_value_none_extends(input@, (i + 1) as nat);
                            }
                            return None;
                        },
                    },
                }
            },
        }
        i += 1;
    }
    assert(input@.take(i as int) =~= input@);
    Some(out)
}

fn cell_content_exec(model: &Model, sheet: u32, row: i32, column: i32) -> (c: Content)
    requires
        sheet < model@.sheets.len(),
    ensures
        c@ == cell_content(model@, sheet, row, column),
        c@ matches ContentView::Value(v) ==> wf_value(v),
{
    let w = &model.worksheets[sheet as usize];
    assert(model@.sheets[sheet as int] == w@);
    match find_cell_exec(&w.cells, row, column) {
        None => Content::Empty,
        Some(k) => {
            assert(w@.cells[k as int] == crate::workbook::cell_view(w.cells@[k as int]));
            match &w.cells[k].input {
                None => Content::Empty,
                Some(p) => match render_value_exec(p) {
                    Some(t) => classify_input(t.as_str()),
                    None => Content::Value(CellValue::Error(ErrorKind::Num)),
                },
            }
        },
    }
}

fn to_number_exec(v: CellValue) -> (r: Result<Decimal, ErrorKind>)
    requires
        wf_value(v@),
    ensures
        r == to_number(v@),
        r matches Ok(d) ==> wf_decimal(d),
{
    match v {
        CellValue::Empty => Ok(Decimal { m: 0, s: 0 }),
        CellValue::Number(d) => Ok(d),
        CellValue::Boolean(b) => Ok(
            if b {
                Decimal { m: 1, s: 0 }
            } else {
                Decimal { m: 0, s: 0 }
            },
        ),
        CellValue::Text(t) => match parse_number(t.as_str()) {
            Some(d) => Ok(d),
            None => Err(ErrorKind::Value),
        },
        CellValue::Error(e) => Err(e),
    }
}

fn arith_exec(op: BinOp, a: Decimal, b: Decimal) -> (v: CellValue)
    requires
        wf_decimal(a),
        wf_decimal(b),
    ensures
        v@ == arith(op, a, b),
        wf_value(v@),
{
    if op == BinOp::Div && b.m == 0 {
        return CellValue::Error(ErrorKind::Div0);
    }
    let r = match op {
        BinOp::Add => decimal_add(a, b),
        BinOp::Sub => decimal_sub(a, b),
        BinOp::Mul => decimal_mul(a, b),
        BinOp::Div => decimal_div(a, b),
    };
    match r {
        Some(d) => CellValue::Number(d),
        None => CellValue::Error(ErrorKind::Num),
    }
}

fn on_path(path: &Vec<(u32, i32, i32)>, key: (u32, i32, i32)) -> (r: bool)
    ensures
        r == path@.contains(key),
{
    let mut i: usize = 0;
    while i < path.len()
        invariant
            i <= path@.len(),
            forall|j: int| 0 <= j < i ==> path@[j] != key,
        decreases path@.len() - i,
    {
        if path[i].0 == key.0 && path[i].1 == key.1 && path[i].2 == key.2 {
            assert(path@[i as int] == key);
            return true;
        }
        i += 1;
    }
    false
}

fn find_override(overrides: &Vec<((u32, i32, i32), CellValue)>, key: (u32, i32, i32)) -> (r: Option<
    usize,
>)
    ensures
        match override_of(overrides_view(overrides@), key) {
            Some(v) => r matches Some(k) && k < overrides@.len() && overrides@[k as int].1@ == v,
            None => r is None,
        },
{
    let ghost ov = overrides_view(overrides@);
    let mut j: usize = overrides.len();
    assert(ov.take(j as int) =~= ov);
    while j > 0
        invariant
            j <= overrides@.len(),
            ov == overrides_view(overrides@),
            override_of(ov, key) == override_of(ov.take(j as int), key),
        decreases j,
    {
        let ghost pre = ov.take(j as int);
        assert(pre.drop_last() =~= ov.take(j - 1));
        let k = overrides[j - 1].0;
        if k.0 == key.0 && k.1 == key.1 && k.2 == key.2 {
            return Some(j - 1);
        }
        j -= 1;
    }
    None
}

fn copy_value(v: &CellValue) -> (r: CellValue)
    ensures
        r@ == v@,
{
    match v {
        CellValue::Empty => CellValue::Empty,
        CellValue::Number(d) => CellValue::Number(*d),
        CellValue::Text(t) => CellValue::Text(t.clone()),
        CellValue::Boolean(b) => CellValue::Boolean(*b),
        CellValue::Error(e) => CellValue::Error(*e),
    }
}

/// The seeds as values.
pub open spec fn seeds_view(seeds: Option<&Vec<((u32, i32, i32), CellValue)>>) -> Option<Seq<((u32, i32, i32), ValueView)>> {
    match seeds {
        None => None,
        Some(sd) => Some(overrides_view(sd@)),
    }
}

fn seed_exec(seeds: &Vec<((u32, i32, i32), CellValue)>, key: (u32, i32, i32)) -> (v: CellValue)
    requires
        wf_overrides(overrides_view(seeds@)),
    ensures
        v@ == seed_value(overrides_view(seeds@), key),
        wf_value(v@),
{
    match find_override(seeds, key) {
        Some(k) => {
            assert(overrides_view(seeds@)[k as int].1 == seeds@[k as int].1@);
            match &seeds[k].1 {
                CellValue::Number(d) => CellValue::Number(*d),
                _ => CellValue::Number(Decimal { m: 0, s: 0 }),
            }
        },
        None => CellValue::Number(Decimal { m: 0, s: 0 }),
    }
}

fn eval_cell_exec(
    model: &Model,
    overrides: &Vec<((u32, i32, i32), CellValue)>,
    seeds: Option<&Vec<((u32, i32, i32), CellValue)>>,
    sheet: u32,
    row: i32,
    column: i32,
    path: &mut Vec<(u32, i32, i32)>,
    fuel: u64,
) -> (v: CellValue)
    requires
        sheet < model@.sheets.len(),
        wf_overrides(overrides_view(overrides@)),
        seeds matches Some(sd) ==> wf_overrides(overrides_view(sd@)),
    ensures
        v@ == eval_cell(model@, overrides_view(overrides@), seeds_view(seeds), sheet, row, column, old(path)@, fuel as nat),
        wf_value(v@),
        final(path)@ == old(path)@,
    decreases fuel, 1nat, 0nat, 0nat,
{
    match find_override(overrides, (sheet, row, column)) {
        Some(k) => {
            assert(overrides_view(overrides@)[k as int].1 == overrides@[k as int].1@);
            return copy_value(&overrides[k].1);
        },
        None => {},
    }
    if on_path(path, (sheet, row, column)) {
        return match seeds {
            None => CellValue::Error(ErrorKind::Circ),
            Some(sd) => seed_exec(sd, (sheet, row, column)),
        };
    }
    match cell_content_exec(model, sheet, row, column) {
        Content::Empty => CellValue::Empty,
        Content::Value(v) => v,
        Content::Formula(f) => match parse_formula_exec(f.as_str()) {
            None => CellValue::Error(ErrorKind::Error),
            Some(e) => {
                let ghost before = path@;
                path.push((sheet, row, column));
                let v = eval_expr_exec(model, overrides, seeds, sheet, &e, path, fuel);
                let _ = path.pop();
                assert(path@ =~= before);
                v
            },
        },
    }
}

fn eval_expr_exec(
    model: &Model,
    overrides: &Vec<((u32, i32, i32), CellValue)>,
    seeds: Option<&Vec<((u32, i32, i32), CellValue)>>,
    sheet: u32,
    e: &Expr,
    path: &mut Vec<(u32, i32, i32)>,
    fuel: u64,
) -> (v: CellValue)
    requires
        sheet < model@.sheets.len(),
        wf_expr(*e),
        wf_overrides(overrides_view(overrides@)),
        seeds matches Some(sd) ==> wf_overrides(overrides_view(sd@)),
    ensures
        v@ == eval_expr(model@, overrides_view(overrides@), seeds_view(seeds), sheet, *e, old(path)@, fuel as nat),
        wf_value(v@),
        final(path)@ == old(path)@,
    decreases fuel, 0nat, expr_size(*e), 0nat,
{
    match e {
        Expr::Number(d) => CellValue::Number(*d),
        Expr::Ref(r, c) => {
            if fuel == 0 {
                CellValue::Error(ErrorKind::Circ)
            } else {
                eval_cell_exec(model, overrides, seeds, sheet, *r, *c, path, fuel - 1)
            }
        },
        Expr::Range(f, top, left, bottom, right) => {
            if fuel == 0 {
                CellValue::Error(ErrorKind::Circ)
            } else {
                range_exec(model, overrides, seeds, sheet, *f, *top, *left, *bottom, *right, path, fuel)
            }
        },
        Expr::Neg(x) => match to_number_exec(eval_expr_exec(model, overrides, seeds, sheet, x, path, fuel)) {
            Ok(d) => CellValue::Number(Decimal { m: -d.m, s: d.s }),
            Err(k) => CellValue::Error(k),
        },
        Expr::Binary(op, l, r) => match to_number_exec(eval_expr_exec(model, overrides, seeds, sheet, l, path, fuel)) {
            Err(k) => CellValue::Error(k),
            Ok(a) => match to_number_exec(eval_expr_exec(model, overrides, seeds, sheet, r, path, fuel)) {
                Err(k) => CellValue::Error(k),
                Ok(b) => arith_exec(*op, a, b),
            },
        },
    }
}

/// The value of a range function (see [`range_fold`] and
/// [`range_result`]).
fn range_exec(
    model: &Model,
    overrides: &Vec<((u32, i32, i32), CellValue)>,
    seeds: Option<&Vec<((u32, i32, i32), CellValue)>>,
    sheet: u32,
    f: RangeFn,
    top: i32,
    left: i32,
    bottom: i32,
    right: i32,
    path: &mut Vec<(u32, i32, i32)>,
    fuel: u64,
) -> (v: CellValue)
    requires
        sheet < model@.sheets.len(),
        wf_overrides(overrides_view(overrides@)),
        seeds matches Some(sd) ==> wf_overrides(overrides_view(sd@)),
        fuel > 0,
        1 <= top <= bottom <= LAST_ROW,
        1 <= left <= right <= LAST_COLUMN,
    ensures
        v@ == match range_fold(
            model@,
            overrides_view(overrides@),
            seeds_view(seeds),
            sheet,
            top,
            left,
            bottom,
            right,
            0,
            zero(),
            0,
            old(path)@,
            fuel as nat,
        ) {
            Err(k) => ValueView::Error(k),
            Ok((total, n)) => range_result(f, total, n),
        },
        wf_value(v@),
        final(path)@ == old(path)@,
    decreases fuel, 0nat, 0nat, 0nat,
{
    let ghost ov = overrides_view(overrides@);
    let ghost sd = seeds_view(seeds);
    let ghost p0 = path@;
    let rows: u64 = (bottom - top + 1) as u64;
    let w: u64 = (right - left + 1) as u64;
    assert(rows * w <= 1048576 * 16384) by (nonlinear_arith)
        requires
            1 <= rows <= 1048576,
            1 <= w <= 16384,
    ;
    let count: u64 = rows * w;
    let ghost target = range_fold(model@, ov, sd, sheet, top, left, bottom, right, 0, zero(), 0, p0, fuel as nat);
    let mut k: u64 = 0;
    let mut total = Decimal { m: 0, s: 0 };
    let mut n: u64 = 0;
    while k < count
        invariant
            sheet < model@.sheets.len(),
            wf_overrides(ov),
            ov == overrides_view(overrides@),
            sd == seeds_view(seeds),
            seeds matches Some(x) ==> wf_overrides(overrides_view(x@)),
            fuel > 0,
            1 <= top <= bottom <= LAST_ROW,
            1 <= left <= right <= LAST_COLUMN,
            rows == bottom - top + 1,
            w == right - left + 1,
            count == rows * w,
            count == range_count(top, left, bottom, right),
            count <= 1048576 * 16384,
            k <= count,
            n <= k,
            wf_decimal(total),
            path@ == p0,
            p0 == old(path)@,
            target == range_fold(model@, ov, sd, sheet, top, left, bottom, right, 0, zero(), 0, p0, fuel as nat),
            range_fold(model@, ov, sd, sheet, top, left, bottom, right, k as nat, total, n as nat, p0, fuel as nat)
                == target,
        decreases count - k,
    {
        assert(k / w < rows) by (nonlinear_arith)
            requires
                k < rows * w,
                w >= 1,
        ;
        assert(k % w < w) by (nonlinear_arith)
            requires
                w >= 1,
        ;
        let row = top + (k / w) as i32;
        let column = left + (k % w) as i32;
        let v = eval_cell_exec(model, overrides, seeds, sheet, row, column, path, fuel - 1);
        match v {
            CellValue::Number(d) => match decimal_add(total, d) {
                Some(t2) => {
                    total = t2;
                    n = n + 1;
                },
                None => {
                    return CellValue::Error(ErrorKind::Num);
                },
            },
            CellValue::Error(e) => {
                return CellValue::Error(e);
            },
            _ => {},
        }
        k += 1;
    }
    match f {
        RangeFn::Sum => CellValue::Number(total),
        RangeFn::Average => {
            if n == 0 {
                CellValue::Error(ErrorKind::Div0)
            } else {
                match decimal_div(total, Decimal { m: n as i128, s: 0 }) {
                    Some(q) => CellValue::Number(q),
                    None => CellValue::Error(ErrorKind::Num),
                }
            }
        },
    }
}

fn eval_fuel_exec(model: &Model) -> (f: u64)
    ensures
        f as nat == eval_fuel(model@),
{
    let ghost sheets = model@.sheets;
    let mut total: u64 = 0;
    let mut i: usize = 0;
    while i < model.worksheets.len()
        invariant
            i <= model.worksheets@.len(),
            sheets == model@.sheets,
            total as nat == if cell_count(sheets.take(i as int)) < u64::MAX {
                cell_count(sheets.take(i as int))
            } else {
                u64::MAX as nat
            },
        decreases model.worksheets@.len() - i,
    {
        assert(sheets.take(i + 1).drop_last() =~= sheets.take(i as int));
        assert(sheets[i as int] == model.worksheets@[i as int]@);
        assert(sheets[i as int].cells.len() == model.worksheets@[i as int].cells@.len());
        let len = model.worksheets[i].cells.len() as u64;
        if total > u64::MAX - len {
            total = u64::MAX;
        } else {
            total = total + len;
        }
        i += 1;
    }
    assert(sheets.take(i as int) =~= sheets);
    if total < u64::MAX {
        total + 1
    } else {
        u64::MAX
    }
}

// ---------------------------------------------------------------------------
// Iterative calculation
// ---------------------------------------------------------------------------

/// `2^k`.
pub open spec fn two_pow(k: nat) -> nat
    decreases k,
{
    if k == 0 {
        1
    } else {
        2 * two_pow((k - 1) as nat)
    }
}

/// Whether `x / 10^s` is at most the IEEE double whose bit pattern is
/// `bits`: sign bit, 11 exponent bits, 52 fraction bits. Nothing is at most
/// a NaN or minus infinity, everything is at most plus infinity.
pub open spec fn at_most_double(x: nat, s: nat, bits: u64) -> bool {
    let e = (bits as int / 0x10_0000_0000_0000) % 2048;
    let f = bits as int % 0x10_0000_0000_0000;
    let negative = bits >= 0x8000_0000_0000_0000u64;
    if e == 2047 {
        f == 0 && !negative
    } else if negative {
        x == 0 && e == 0 && f == 0
    } else {
        let mant = if e == 0 {
            f
        } else {
            f + 0x10_0000_0000_0000
        };
        if e >= 1075 {
            x <= mant * pow10(s) * two_pow((e - 1075) as nat)
        } else if e == 0 {
            x * two_pow(1074) <= mant * pow10(s)
        } else {
            x * two_pow((1075 - e) as nat) <= mant * pow10(s)
        }
    }
}

/// Whether two decimals differ by at most the double whose bit pattern is
/// `bits`.
pub open spec fn within(a: Decimal, b: Decimal, bits: u64) -> bool {
    let s: nat = if a.s >= b.s {
        a.s as nat
    } else {
        b.s as nat
    };
    at_most_double(abs(a.m * pow10((s - a.s) as nat) - b.m * pow10((s - b.s) as nat)), s, bits)
}

/// Whether a cell's value is settled from one pass to the next: two numbers
/// within the delta, or two values that are not numbers.
pub open spec fn settled(a: ValueView, b: ValueView, bits: u64) -> bool {
    match a {
        ValueView::Number(x) => match b {
            ValueView::Number(y) => within(x, y, bits),
            _ => false,
        },
        _ => !(b is Number),
    }
}

/// Whether every cell is settled between two passes.
pub open spec fn converged(
    prev: Seq<((u32, i32, i32), ValueView)>,
    cur: Seq<((u32, i32, i32), ValueView)>,
    bits: u64,
) -> bool {
    &&& prev.len() == cur.len()
    &&& forall|i: int| 0 <= i < cur.len() ==> #[trigger] settled(prev[i].1, cur[i].1, bits)
}

/// The places of the cells of sheet `s`.
pub open spec fn sheet_keys(s: u32, cells: Seq<CellView>) -> Seq<(u32, i32, i32)> {
    cells.map_values(|c: CellView| (s, c.row, c.column))
}

/// The places of the cells of the first `n` sheets, sheet by sheet.
pub open spec fn keys_upto(sheets: Seq<SheetView>, n: nat) -> Seq<(u32, i32, i32)>
    decreases n,
{
    if n == 0 || n > sheets.len() {
        Seq::empty()
    } else {
        keys_upto(sheets, (n - 1) as nat) + sheet_keys((n - 1) as u32, sheets[n - 1].cells)
    }
}

/// The number of sheets whose index fits in `u32`.
pub open spec fn indexed_sheets(m: ModelView) -> nat {
    if m.sheets.len() < u32::MAX {
        m.sheets.len()
    } else {
        u32::MAX as nat
    }
}

/// The places of all cells of the workbook.
pub open spec fn all_keys(m: ModelView) -> Seq<(u32, i32, i32)> {
    keys_upto(m.sheets, indexed_sheets(m))
}

/// A cell and its value in a pass that starts from `seeds`.
pub open spec fn pass_entry(
    m: ModelView,
    overrides: Seq<((u32, i32, i32), ValueView)>,
    seeds: Seq<((u32, i32, i32), ValueView)>,
    k: (u32, i32, i32),
) -> ((u32, i32, i32), ValueView) {
    (k, eval_cell(m, overrides, Some(seeds), k.0, k.1, k.2, Seq::empty(), eval_fuel(m)))
}

/// One pass of iterative calculation: every cell, evaluated with the
/// values of the previous pass as seeds.
pub open spec fn pass(
    m: ModelView,
    overrides: Seq<((u32, i32, i32), ValueView)>,
    seeds: Seq<((u32, i32, i32), ValueView)>,
) -> Seq<((u32, i32, i32), ValueView)> {
    all_keys(m).map_values(|k: (u32, i32, i32)| pass_entry(m, overrides, seeds, k))
}

/// The values after `n` passes; before the first pass there are none.
pub open spec fn pass_values(m: ModelView, overrides: Seq<((u32, i32, i32), ValueView)>, n: nat) -> Seq<
    ((u32, i32, i32), ValueView),
>
    decreases n,
{
    if n == 0 {
        Seq::empty()
    } else {
        pass(m, overrides, pass_values(m, overrides, (n - 1) as nat))
    }
}

/// The largest number of passes: the workbook's count, at least one.
pub open spec fn pass_limit(m: ModelView) -> nat {
    if m.calc.iterate_count == 0 {
        1
    } else {
        m.calc.iterate_count as nat
    }
}

/// The pass at which iteration stops, looking from pass `n` on: the first
/// pass from the second on that is converged with the one before it, or
/// the last pass allowed.
pub open spec fn last_pass(m: ModelView, overrides: Seq<((u32, i32, i32), ValueView)>, n: nat) -> nat
    decreases pass_limit(m) - n,
{
    if n >= pass_limit(m) {
        n
    } else if n >= 2 && converged(
        pass_values(m, overrides, (n - 1) as nat),
        pass_values(m, overrides, n),
        m.calc.iterate_delta,
    ) {
        n
    } else {
        last_pass(m, overrides, n + 1)
    }
}

/// The value of a cell under iterative calculation: its value in the last
/// pass.
pub open spec fn iterated_value(
    m: ModelView,
    overrides: Seq<((u32, i32, i32), ValueView)>,
    sheet: u32,
    row: i32,
    column: i32,
) -> ValueView {
    let n = last_pass(m, overrides, 1);
    eval_cell(m, overrides, Some(pass_values(m, overrides, (n - 1) as nat)), sheet, row, column, Seq::empty(), eval_fuel(m))
}

proof fn lemma_two_pow_monotone(a: nat, b: nat)
    requires
        a <= b,
    ensures
        1 <= two_pow(a) <= two_pow(b),
    decreases b,
{
    if b == 0 {
        assert(two_pow(0) == 1);
    } else if a == b {
        lemma_two_pow_monotone(0, (b - 1) as nat);
    } else {
        lemma_two_pow_monotone(a, (b - 1) as nat);
    }
}

proof fn lemma_two_pow_add(a: nat, b: nat)
    ensures
        two_pow(a + b) == two_pow(a) * two_pow(b),
    decreases a,
{
    if a == 0 {
        assert(two_pow(0) == 1);
        assert(two_pow(a + b) == two_pow(b));
    } else {
        let a1 = (a - 1) as nat;
        lemma_two_pow_add(a1, b);
        assert((a + b - 1) as nat == a1 + b);
        assert(two_pow(a + b) == 2 * two_pow(a1 + b));
        assert(two_pow(a) == 2 * two_pow(a1));
        let x = two_pow(a1);
        let y = two_pow(b);
        assert(2 * (x * y) == (2 * x) * y) by (nonlinear_arith);
    }
}

proof fn lemma_two_pow_values()
    ensures
        two_pow(110) == 1298074214633706907132624082305024,
        two_pow(120) == 1329227995784915872903807060280344576,
{
    reveal_with_fuel(two_pow, 11);
    assert(two_pow(10) == 1024);
    lemma_two_pow_add(10, 10);
    assert(two_pow(20) == 1048576);
    lemma_two_pow_add(20, 20);
    assert(two_pow(40) == 1099511627776);
    lemma_two_pow_add(40, 40);
    assert(two_pow(80) == 1208925819614629174706176);
    lemma_two_pow_add(80, 20);
    assert(two_pow(100) == 1267650600228229401496703205376);
    lemma_two_pow_add(100, 10);
    lemma_two_pow_add(80, 40);
}

fn two_pow_exec(k: u32) -> (p: u128)
    requires
        k < 120,
    ensures
        p == two_pow(k as nat),
        p >= 1,
{
    proof {
        lemma_two_pow_values();
    }
    let mut p: u128 = 1;
    let mut i: u32 = 0;
    while i < k
        invariant
            i <= k < 120,
            p == two_pow(i as nat),
            two_pow(120) == 1329227995784915872903807060280344576,
        decreases k - i,
    {
        proof {
            lemma_two_pow_monotone((i + 1) as nat, 120);
        }
        p = p * 2;
        i += 1;
    }
    proof {
        lemma_two_pow_monotone(0, k as nat);
    }
    p
}

/// Whether `x / 10^s` is at most the double with bit pattern `bits` (see
/// [`at_most_double`]).
fn at_most_double_exec(x: u128, s: u32, bits: u64) -> (r: bool)
    requires
        x < 10_000_000_000_000_000_000_000_000_000_000_000,
        s <= MAX_SCALE,
    ensures
        r == at_most_double(x as nat, s as nat, bits),
{
    let e: u64 = (bits / 0x10_0000_0000_0000) % 2048;
    let f: u64 = bits % 0x10_0000_0000_0000;
    let negative = bits >= 0x8000_0000_0000_0000u64;
    if e == 2047 {
        return f == 0 && !negative;
    }
    if negative {
        return x == 0 && e == 0 && f == 0;
    }
    let mant: u128 = if e == 0 {
        f as u128
    } else {
        f as u128 + 0x10_0000_0000_0000
    };
    let p10 = pow10_small(s) as u128;
    assert(mant * p10 < 10_000_000_000_000_000_000_000_000_000_000) by (nonlinear_arith)
        requires
            mant < 0x20_0000_0000_0000,
            1 <= p10 <= 1_000_000_000_000_000,
    ;
    let y = mant * p10;
    proof {
        lemma_two_pow_values();
    }
    if e >= 1075 {
        let k: u32 = (e - 1075) as u32;
        if y == 0 {
            proof {
                lemma_two_pow_monotone(0, k as nat);
                assert(mant * pow10(s as nat) * two_pow(k as nat) == 0) by (nonlinear_arith)
                    requires
                        mant * pow10(s as nat) == 0,
                ;
            }
            return x == 0;
        }
        if k >= 120 {
            proof {
                lemma_two_pow_monotone(120, k as nat);
                let t = two_pow(k as nat);
                assert(y * t >= t) by (nonlinear_arith)
                    requires
                        y >= 1,
                        t >= 1,
                ;
            }
            return true;
        }
        let p = two_pow_exec(k);
        let q = x / p;
        let rem = x % p;
        proof {
            vstd::arithmetic::div_mod::lemma_fundamental_div_mod(x as int, p as int);
            vstd::arithmetic::div_mod::lemma_mod_pos_bound(x as int, p as int);
            if q < y {
                assert(x <= y * p) by (nonlinear_arith)
                    requires
                        x == p * q + rem,
                        rem < p,
                        q < y,
                        q >= 0,
                ;
            } else if q == y && rem == 0 {
                assert(x == y * p) by (nonlinear_arith)
                    requires
                        x == p * q + rem,
                        q == y,
                        rem == 0,
                ;
            } else {
                assert(x > y * p) by (nonlinear_arith)
                    requires
                        x == p * q + rem,
                        0 <= rem < p,
                        q >= y,
                        !(q == y && rem == 0),
                ;
            }
        }
        q < y || (q == y && rem == 0)
    } else {
        let k: u32 = if e == 0 {
            1074
        } else {
            (1075 - e) as u32
        };
        if k >= 110 {
            proof {
                lemma_two_pow_monotone(110, k as nat);
                let t = two_pow(k as nat);
                if x > 0 {
                    assert(x * t >= t) by (nonlinear_arith)
                        requires
                            x >= 1,
                            t >= 1,
                    ;
                }
            }
            return x == 0;
        }
        let p = two_pow_exec(k);
        let q = y / p;
        proof {
            vstd::arithmetic::div_mod::lemma_fundamental_div_mod(y as int, p as int);
            vstd::arithmetic::div_mod::lemma_mod_pos_bound(y as int, p as int);
            let rem = y % p;
            if x <= q {
                assert(x * p <= y) by (nonlinear_arith)
                    requires
                        y == p * q + rem,
                        rem >= 0,
                        x <= q,
                        p >= 1,
                ;
            } else {
                assert(x * p > y) by (nonlinear_arith)
                    requires
                        y == p * q + rem,
                        rem < p,
                        x >= q + 1,
                        p >= 1,
                ;
            }
        }
        x <= q
    }
}

/// Whether two decimals differ by at most the double `bits` (see
/// [`within`]).
fn within_exec(a: Decimal, b: Decimal, bits: u64) -> (r: bool)
    requires
        wf_decimal(a),
        wf_decimal(b),
    ensures
        r == within(a, b, bits),
{
    let s = if a.s >= b.s {
        a.s
    } else {
        b.s
    };
    let x = scaled(a.m, pow10_small(s - a.s));
    let y = scaled(b.m, pow10_small(s - b.s));
    let d = x - y;
    at_most_double_exec(magnitude(d), s, bits)
}

fn settled_exec(a: &CellValue, b: &CellValue, bits: u64) -> (r: bool)
    requires
        wf_value(a@),
        wf_value(b@),
    ensures
        r == settled(a@, b@, bits),
{
    match a {
        CellValue::Number(x) => match b {
            CellValue::Number(y) => within_exec(*x, *y, bits),
            _ => false,
        },
        _ => match b {
            CellValue::Number(_) => false,
            _ => true,
        },
    }
}

fn converged_exec(
    prev: &Vec<((u32, i32, i32), CellValue)>,
    cur: &Vec<((u32, i32, i32), CellValue)>,
    bits: u64,
) -> (r: bool)
    requires
        wf_overrides(overrides_view(prev@)),
        wf_overrides(overrides_view(cur@)),
    ensures
        r == converged(overrides_view(prev@), overrides_view(cur@), bits),
{
    let ghost pv = overrides_view(prev@);
    let ghost cv = overrides_view(cur@);
    if prev.len() != cur.len() {
        return false;
    }
    let mut i: usize = 0;
    while i < cur.len()
        invariant
            i <= cur@.len(),
            prev@.len() == cur@.len(),
            pv == overrides_view(prev@),
            cv == overrides_view(cur@),
            wf_overrides(pv),
            wf_overrides(cv),
            forall|j: int| 0 <= j < i ==> #[trigger] settled(pv[j].1, cv[j].1, bits),
        decreases cur@.len() - i,
    {
        assert(pv[i as int].1 == prev@[i as int].1@);
        assert(cv[i as int].1 == cur@[i as int].1@);
        assert(wf_value(pv[i as int].1));
        assert(wf_value(cv[i as int].1));
        if !settled_exec(&prev[i].1, &cur[i].1, bits) {
            return false;
        }
        i += 1;
    }
    true
}

proof fn lemma_keys_upto(sheets: Seq<SheetView>, n: nat)
    requires
        n <= sheets.len(),
        n <= u32::MAX,
    ensures
        forall|i: int| 0 <= i < keys_upto(sheets, n).len() ==> (#[trigger] keys_upto(sheets, n)[i]).0 < n,
    decreases n,
{
    if n > 0 {
        lemma_keys_upto(sheets, (n - 1) as nat);
        let a = keys_upto(sheets, (n - 1) as nat);
        let b = sheet_keys((n - 1) as u32, sheets[n - 1].cells);
        assert forall|i: int| 0 <= i < (a + b).len() implies (#[trigger] (a + b)[i]).0 < n by {
            if i >= a.len() {
                assert((a + b)[i] == b[i - a.len()]);
            }
        }
    }
}

/// The places of all cells of the workbook (see [`all_keys`]).
fn all_keys_exec(model: &Model) -> (keys: Vec<(u32, i32, i32)>)
    ensures
        keys@ == all_keys(model@),
        forall|i: int| 0 <= i < keys@.len() ==> (#[trigger] keys@[i]).0 < model@.sheets.len(),
{
    let ghost sheets = model@.sheets;
    let n: usize = if model.worksheets.len() < 0xFFFF_FFFFusize {
        model.worksheets.len()
    } else {
        0xFFFF_FFFFusize
    };
    let mut keys: Vec<(u32, i32, i32)> = Vec::new();
    let mut i: usize = 0;
    while i < n
        invariant
            i <= n,
            n as nat == indexed_sheets(model@),
            n <= model.worksheets@.len(),
            sheets == model@.sheets,
            keys@ == keys_upto(sheets, i as nat),
        decreases n - i,
    {
        let cells = &model.worksheets[i].cells;
        let ghost before = keys@;
        let ghost sk = sheet_keys(i as u32, sheets[i as int].cells);
        assert(sheets[i as int] == model.worksheets@[i as int]@);
        let mut j: usize = 0;
        while j < cells.len()
            invariant
                j <= cells@.len(),
                i < n,
                n <= model.worksheets@.len(),
                n <= 0xFFFF_FFFF,
                cells == &model.worksheets@[i as int].cells,
                sheets == model@.sheets,
                sheets[i as int] == model.worksheets@[i as int]@,
                sk == sheet_keys(i as u32, sheets[i as int].cells),
                keys@ == before + sk.take(j as int),
            decreases cells@.len() - j,
        {
            assert(sheets[i as int].cells[j as int] == crate::workbook::cell_view(cells@[j as int]));
            keys.push((i as u32, cells[j].row, cells[j].column));
            assert(sk.take(j + 1) =~= sk.take(j as int).push(sk[j as int]));
            assert(keys@ =~= before + sk.take(j + 1));
            j += 1;
        }
        assert(sk.take(j as int) =~= sk);
        i += 1;
    }
    proof {
        lemma_keys_upto(sheets, n as nat);
    }
    keys
}

/// One pass (see [`pass`]).
fn run_pass(
    model: &Model,
    overrides: &Vec<((u32, i32, i32), CellValue)>,
    keys: &Vec<(u32, i32, i32)>,
    seeds: &Vec<((u32, i32, i32), CellValue)>,
) -> (out: Vec<((u32, i32, i32), CellValue)>)
    requires
        keys@ == all_keys(model@),
        forall|i: int| 0 <= i < keys@.len() ==> (#[trigger] keys@[i]).0 < model@.sheets.len(),
        wf_overrides(overrides_view(overrides@)),
        wf_overrides(overrides_view(seeds@)),
    ensures
        overrides_view(out@) == pass(model@, overrides_view(overrides@), overrides_view(seeds@)),
        wf_overrides(overrides_view(out@)),
{
    let ghost ov = overrides_view(overrides@);
    let ghost sd = overrides_view(seeds@);
    let ghost full = pass(model@, ov, sd);
    let fuel = eval_fuel_exec(model);
    let mut out: Vec<((u32, i32, i32), CellValue)> = Vec::new();
    let mut i: usize = 0;
    while i < keys.len()
        invariant
            i <= keys@.len(),
            keys@ == all_keys(model@),
            forall|j: int| 0 <= j < keys@.len() ==> (#[trigger] keys@[j]).0 < model@.sheets.len(),
            ov == overrides_view(overrides@),
            sd == overrides_view(seeds@),
            wf_overrides(ov),
            wf_overrides(sd),
            fuel as nat == eval_fuel(model@),
            full == pass(model@, ov, sd),
            full.len() == keys@.len(),
            overrides_view(out@) == full.take(i as int),
            wf_overrides(overrides_view(out@)),
        decreases keys@.len() - i,
    {
        let k = keys[i];
        assert(k.0 < model@.sheets.len());
        let mut path: Vec<(u32, i32, i32)> = Vec::new();
        let v = eval_cell_exec(model, overrides, Some(seeds), k.0, k.1, k.2, &mut path, fuel);
        assert(path@ == Seq::<(u32, i32, i32)>::empty());
        let ghost before = out@;
        out.push((k, v));
        assert(full[i as int] == pass_entry(model@, ov, sd, k));
        assert(overrides_view(out@) =~= overrides_view(before).push((k, v@)));
        assert(overrides_view(out@) =~= full.take(i + 1));
        assert(wf_overrides(overrides_view(out@))) by {
            assert forall|j: int| 0 <= j < out@.len() implies wf_value(#[trigger] overrides_view(out@)[j].1) by {
                if j < i {
                    assert(overrides_view(out@)[j] == overrides_view(before)[j]);
                }
            }
        }
        i += 1;
    }
    assert(full.take(i as int) =~= full);
    out
}

/// The values of the pass before the last one (see [`iterated_value`]).
fn iterate_exec(model: &Model, overrides: &Vec<((u32, i32, i32), CellValue)>) -> (seeds: Vec<
    ((u32, i32, i32), CellValue),
>)
    requires
        wf_overrides(overrides_view(overrides@)),
    ensures
        overrides_view(seeds@) == pass_values(
            model@,
            overrides_view(overrides@),
            (last_pass(model@, overrides_view(overrides@), 1) - 1) as nat,
        ),
        wf_overrides(overrides_view(seeds@)),
{
    let ghost m = model@;
    let ghost ov = overrides_view(overrides@);
    let keys = all_keys_exec(model);
    let limit: u32 = if model.calc_properties.iterate_count == 0 {
        1
    } else {
        model.calc_properties.iterate_count
    };
    let delta = model.calc_properties.iterate_delta;
    let mut prev: Vec<((u32, i32, i32), CellValue)> = Vec::new();
    assert(overrides_view(prev@) =~= Seq::<((u32, i32, i32), ValueView)>::empty());
    let mut cur = run_pass(model, overrides, &keys, &prev);
    let mut n: u32 = 1;
    assert(pass_values(m, ov, 1) == pass(m, ov, pass_values(m, ov, 0)));
    while n < limit && !(n >= 2 && converged_exec(&prev, &cur, delta))
        invariant
            1 <= n <= limit,
            limit as nat == pass_limit(m),
            m == model@,
            ov == overrides_view(overrides@),
            wf_overrides(ov),
            delta == m.calc.iterate_delta,
            keys@ == all_keys(m),
            forall|i: int| 0 <= i < keys@.len() ==> (#[trigger] keys@[i]).0 < m.sheets.len(),
            overrides_view(prev@) == pass_values(m, ov, (n - 1) as nat),
            overrides_view(cur@) == pass_values(m, ov, n as nat),
            wf_overrides(overrides_view(prev@)),
            wf_overrides(overrides_view(cur@)),
            last_pass(m, ov, 1) == last_pass(m, ov, n as nat),
        decreases limit - n,
    {
        assert(last_pass(m, ov, n as nat) == last_pass(m, ov, (n + 1) as nat));
        let next = run_pass(model, overrides, &keys, &cur);
        assert(pass_values(m, ov, (n + 1) as nat) == pass(m, ov, pass_values(m, ov, n as nat)));
        prev = cur;
        cur = next;
        n += 1;
    }
    assert(last_pass(m, ov, n as nat) == n);
    prev
}

/// The value of a cell when the cells of `overrides` read as the values
/// given there (see [`value_with`]).
pub fn value_with_overrides(
    model: &Model,
    overrides: &Vec<((u32, i32, i32), CellValue)>,
    sheet: u32,
    row: i32,
    column: i32,
) -> (v: CellValue)
    requires
        sheet < model@.sheets.len(),
        wf_overrides(overrides_view(overrides@)),
    ensures
        v@ == value_with(model@, overrides_view(overrides@), sheet, row, column),
        wf_value(v@),
{
    let fuel = eval_fuel_exec(model);
    let mut path: Vec<(u32, i32, i32)> = Vec::new();
    proof {
        reveal(value_with);
    }
    if model.calc_properties.iterate {
        let seeds = iterate_exec(model, overrides);
        eval_cell_exec(model, overrides, Some(&seeds), sheet, row, column, &mut path, fuel)
    } else {
        eval_cell_exec(model, overrides, None, sheet, row, column, &mut path, fuel)
    }
}

impl Model {
    /// The value of cell `(row, column)` (1-based) of sheet `sheet` (see
    /// [`cell_value`]).
    pub fn get_cell_value_by_index(&self, sheet: u32, row: i32, column: i32) -> (r: Result<CellValue, String>)
        ensures
            sheet < self@.sheets.len() ==> (r matches Ok(v) && v@ == cell_value(self@, sheet, row, column)),
            sheet >= self@.sheets.len() ==> (r matches Err(e) && e@ == "Invalid sheet index"@),
            r matches Ok(v) ==> wf_value(v@),
    {
        if sheet as usize >= self.worksheets.len() {
            return Err(String::from_str("Invalid sheet index"));
        }
        let none: Vec<((u32, i32, i32), CellValue)> = Vec::new();
        assert(overrides_view(none@) =~= Seq::<((u32, i32, i32), ValueView)>::empty());
        Ok(value_with_overrides(self, &none, sheet, row, column))
    }

    /// The value of a cell as it is shown (see [`formatted`]).
    pub fn get_formatted_cell_value(&self, sheet: u32, row: i32, column: i32) -> (r: Result<String, String>)
        ensures
            sheet < self@.sheets.len() ==> (r matches Ok(s) && s@ == formatted(
                cell_value(self@, sheet, row, column),
            )),
            sheet >= self@.sheets.len() ==> (r matches Err(e) && e@ == "Invalid sheet index"@),
    {
        match self.get_cell_value_by_index(sheet, row, column) {
            Ok(v) => Ok(format_value(&v)),
            Err(e) => Err(e),
        }
    }
}

impl Model {
    /// The value of the cell a reference such as `Sheet1!C3` names (see
    /// [`cell_reference`]); references without a sheet name the first sheet.
    pub fn get_cell_value_by_ref(&self, reference: &str) -> (r: Result<CellValue, String>)
        ensures
            match cell_reference(self@, 0, reference@) {
                Some((s, row, column)) => if s < self@.sheets.len() {
                    r matches Ok(v) && v@ == cell_value(self@, s as u32, row as i32, column as i32)
                } else {
                    r is Err
                },
                None => r matches Err(e) && e@ == "Invalid reference"@,
            },
    {
        match parse_cell_reference(self, 0, reference) {
            Some(c) => self.get_cell_value_by_index(c.sheet, c.row, c.column),
            None => Err(String::from_str("Invalid reference")),
        }
    }
}

/// Text after a leading `'` is read as that text, whatever it looks like:
/// an imported label (stored with the quote) keeps its text.
pub proof fn law_quoted_input_is_text(t: Seq<char>)
    ensures
        classify(seq!['\''] + t) == ContentView::Value(ValueView::Text(t)),
{
    assert((seq!['\''] + t).skip(1) =~= t);
}

/// Whether evaluating cell `(row, column)` of sheet `sheet` through `path`
/// can reach a cell already on the path, following every reference of its
/// formula (both operands of an operator).
pub open spec fn meets_cycle(
    m: ModelView,
    overrides: Seq<((u32, i32, i32), ValueView)>,
    sheet: u32,
    row: i32,
    column: i32,
    path: Seq<(u32, i32, i32)>,
    fuel: nat,
) -> bool
    decreases fuel, 1nat, 0nat, 0nat,
{
    if override_of(overrides, (sheet, row, column)) is Some {
        false
    } else if path.contains((sheet, row, column)) {
        true
    } else {
        match cell_content(m, sheet, row, column) {
            ContentView::Formula(f) => match parse_formula(f) {
                Some(e) => expr_meets_cycle(m, overrides, sheet, e, path.push((sheet, row, column)), fuel),
                None => false,
            },
            _ => false,
        }
    }
}

/// Whether evaluating `e` through `path` can reach a cell on the path.
pub open spec fn expr_meets_cycle(
    m: ModelView,
    overrides: Seq<((u32, i32, i32), ValueView)>,
    sheet: u32,
    e: Expr,
    path: Seq<(u32, i32, i32)>,
    fuel: nat,
) -> bool
    decreases fuel, 0nat, expr_size(e), 0nat,
{
    match e {
        Expr::Number(_) => false,
        Expr::Ref(r, c) => fuel > 0 && meets_cycle(m, overrides, sheet, r, c, path, (fuel - 1) as nat),
        Expr::Range(_, top, left, bottom, right) => fuel > 0 && range_meets_cycle(
            m,
            overrides,
            sheet,
            top,
            left,
            bottom,
            right,
            0,
            path,
            fuel,
        ),
        Expr::Neg(x) => expr_meets_cycle(m, overrides, sheet, *x, path, fuel),
        Expr::Binary(_, l, r) => expr_meets_cycle(m, overrides, sheet, *l, path, fuel) || expr_meets_cycle(
            m,
            overrides,
            sheet,
            *r,
            path,
            fuel,
        ),
    }
}

/// Whether evaluating a cell of a range from the `k`-th on can reach a
/// cell on the path.
pub open spec fn range_meets_cycle(
    m: ModelView,
    overrides: Seq<((u32, i32, i32), ValueView)>,
    sheet: u32,
    top: i32,
    left: i32,
    bottom: i32,
    right: i32,
    k: nat,
    path: Seq<(u32, i32, i32)>,
    fuel: nat,
) -> bool
    decreases fuel, 0nat, 0nat, range_count(top, left, bottom, right) - k,
{
    if k >= range_count(top, left, bottom, right) || fuel == 0 {
        false
    } else {
        let w = right - left + 1;
        meets_cycle(m, overrides, sheet, (top + (k as int) / w) as i32, (left + (k as int) % w) as i32, path, (fuel - 1) as nat)
            || range_meets_cycle(m, overrides, sheet, top, left, bottom, right, k + 1, path, fuel)
    }
}

proof fn lemma_acyclic_range(
    m: ModelView,
    overrides: Seq<((u32, i32, i32), ValueView)>,
    seeds: Option<Seq<((u32, i32, i32), ValueView)>>,
    sheet: u32,
    top: i32,
    left: i32,
    bottom: i32,
    right: i32,
    k: nat,
    total: Decimal,
    n: nat,
    path: Seq<(u32, i32, i32)>,
    fuel: nat,
)
    requires
        !range_meets_cycle(m, overrides, sheet, top, left, bottom, right, k, path, fuel),
    ensures
        range_fold(m, overrides, seeds, sheet, top, left, bottom, right, k, total, n, path, fuel) == range_fold(
            m,
            overrides,
            None,
            sheet,
            top,
            left,
            bottom,
            right,
            k,
            total,
            n,
            path,
            fuel,
        ),
    decreases fuel, 0nat, 0nat, range_count(top, left, bottom, right) - k,
{
    if k < range_count(top, left, bottom, right) && fuel > 0 {
        let w = right - left + 1;
        let row = (top + (k as int) / w) as i32;
        let column = (left + (k as int) % w) as i32;
        lemma_acyclic_cell(m, overrides, seeds, sheet, row, column, path, (fuel - 1) as nat);
        match eval_cell(m, overrides, None, sheet, row, column, path, (fuel - 1) as nat) {
            ValueView::Number(d) => match dec_add(total, d) {
                Some(t2) => lemma_acyclic_range(
                    m,
                    overrides,
                    seeds,
                    sheet,
                    top,
                    left,
                    bottom,
                    right,
                    k + 1,
                    t2,
                    n + 1,
                    path,
                    fuel,
                ),
                None => {},
            },
            ValueView::Error(_) => {},
            _ => lemma_acyclic_range(m, overrides, seeds, sheet, top, left, bottom, right, k + 1, total, n, path, fuel),
        }
    }
}

proof fn lemma_acyclic_cell(
    m: ModelView,
    overrides: Seq<((u32, i32, i32), ValueView)>,
    seeds: Option<Seq<((u32, i32, i32), ValueView)>>,
    sheet: u32,
    row: i32,
    column: i32,
    path: Seq<(u32, i32, i32)>,
    fuel: nat,
)
    requires
        !meets_cycle(m, overrides, sheet, row, column, path, fuel),
    ensures
        eval_cell(m, overrides, seeds, sheet, row, column, path, fuel) == eval_cell(m, overrides, None, sheet, row, column, path, fuel),
    decreases fuel, 1nat, 0nat, 0nat,
{
    if override_of(overrides, (sheet, row, column)) is None && !path.contains((sheet, row, column)) {
        match cell_content(m, sheet, row, column) {
            ContentView::Formula(f) => match parse_formula(f) {
                Some(e) => lemma_acyclic_expr(m, overrides, seeds, sheet, e, path.push((sheet, row, column)), fuel),
                None => {},
            },
            _ => {},
        }
    }
}

proof fn lemma_acyclic_expr(
    m: ModelView,
    overrides: Seq<((u32, i32, i32), ValueView)>,
    seeds: Option<Seq<((u32, i32, i32), ValueView)>>,
    sheet: u32,
    e: Expr,
    path: Seq<(u32, i32, i32)>,
    fuel: nat,
)
    requires
        !expr_meets_cycle(m, overrides, sheet, e, path, fuel),
    ensures
        eval_expr(m, overrides, seeds, sheet, e, path, fuel) == eval_expr(m, overrides, None, sheet, e, path, fuel),
    decreases fuel, 0nat, expr_size(e), 0nat,
{
    match e {
        Expr::Number(_) => {},
        Expr::Ref(r, c) => {
            if fuel > 0 {
                lemma_acyclic_cell(m, overrides, seeds, sheet, r, c, path, (fuel - 1) as nat);
            }
        },
        Expr::Range(_, top, left, bottom, right) => {
            if fuel > 0 {
                lemma_acyclic_range(m, overrides, seeds, sheet, top, left, bottom, right, 0, zero(), 0, path, fuel);
            }
        },
        Expr::Neg(x) => {
            lemma_acyclic_expr(m, overrides, seeds, sheet, *x, path, fuel);
        },
        Expr::Binary(_, l, r) => {
            lemma_acyclic_expr(m, overrides, seeds, sheet, *l, path, fuel);
            lemma_acyclic_expr(m, overrides, seeds, sheet, *r, path, fuel);
        },
    }
}

/// Turning iterative calculation on or off does not change the value of a
/// cell whose evaluation meets no circular reference: it is the plain
/// evaluation of the workbook either way.
pub proof fn law_iteration_keeps_acyclic_values(
    m: ModelView,
    overrides: Seq<((u32, i32, i32), ValueView)>,
    sheet: u32,
    row: i32,
    column: i32,
)
    requires
        !meets_cycle(m, overrides, sheet, row, column, Seq::empty(), eval_fuel(m)),
    ensures
        value_with(m, overrides, sheet, row, column) == eval_cell(
            m,
            overrides,
            None,
            sheet,
            row,
            column,
            Seq::empty(),
            eval_fuel(m),
        ),
{
    reveal(value_with);
    if m.calc.iterate {
        let n = last_pass(m, overrides, 1);
        lemma_acyclic_cell(
            m,
            overrides,
            Some(pass_values(m, overrides, (n - 1) as nat)),
            sheet,
            row,
            column,
            Seq::empty(),
            eval_fuel(m),
        );
    }
}

/// Without iterative calculation, a formula that refers to its own cell
/// is `#CIRC!`.
pub proof fn law_self_reference_is_circular(m: ModelView, sheet: u32, row: i32, column: i32, f: Seq<char>)
    requires
        cell_content(m, sheet, row, column) == ContentView::Formula(f),
        parse_formula(f) == Some(Expr::Ref(row, column)),
        !m.calc.iterate,
    ensures
        cell_value(m, sheet, row, column) == ValueView::Error(ErrorKind::Circ),
{
    reveal(value_with);
    reveal_with_fuel(eval_cell, 2);
    let empty = Seq::<((u32, i32, i32), ValueView)>::empty();
    assert(override_of(empty, (sheet, row, column)) is None);
    let path = Seq::<(u32, i32, i32)>::empty().push((sheet, row, column));
    assert(path.contains((sheet, row, column))) by {
        assert(path[0] == (sheet, row, column));
    }
}

// ---------------------------------------------------------------------------
// Values read back from their text
// ---------------------------------------------------------------------------

proof fn lemma_digit_char(d: nat)
    requires
        d < 10,
    ensures
        is_digit(digit_char(d)),
        digit_char(d) as int - 48 == d,
{
}

/// The decimal text of `n` is made of digits and reads back as `n`.
proof fn lemma_decimal_reads_back(n: nat)
    ensures
        decimal(n).len() >= 1,
        forall|k: int| 0 <= k < decimal(n).len() ==> is_digit(#[trigger] decimal(n)[k]),
        digits_value(decimal(n)) == n,
    decreases n,
{
    lemma_digit_char(n % 10);
    let t = decimal(n);
    if n >= 10 {
        lemma_decimal_reads_back(n / 10);
        assert(t.drop_last() =~= decimal(n / 10));
        assert(t.last() == digit_char(n % 10));
        assert(digits_value(t) == digits_value(t.drop_last()) * 10 + (t.last() as int - 48));
        assert(n == (n / 10) * 10 + n % 10);
    } else {
        assert(t.drop_last() =~= Seq::<char>::empty());
        assert(digits_value(Seq::<char>::empty()) == 0);
        assert(digits_value(t) == digits_value(t.drop_last()) * 10 + (t.last() as int - 48));
    }
}

/// A number below `10^k` has at most `k` digits.
proof fn lemma_decimal_len(n: nat, k: nat)
    requires
        k >= 1,
        n < pow10(k),
    ensures
        decimal(n).len() <= k,
    decreases n,
{
    if n >= 10 {
        let k1 = (k - 1) as nat;
        assert(pow10(k) == 10 * pow10(k1));
        if k1 == 0 {
            assert(pow10(0) == 1);
        }
        lemma_decimal_len(n / 10, k1);
    }
}

/// The `d` padded digits of `x` read back as `x % 10^d`.
proof fn lemma_padded_reads_back(x: nat, d: nat)
    ensures
        padded_digits(x, d).len() == d,
        forall|k: int| 0 <= k < d ==> is_digit(#[trigger] padded_digits(x, d)[k]),
        digits_value(padded_digits(x, d)) == x % pow10(d),
    decreases d,
{
    if d == 0 {
        assert(pow10(0) == 1);
    } else {
        let d1 = (d - 1) as nat;
        lemma_padded_reads_back(x / 10, d1);
        lemma_digit_char(x % 10);
        assert(padded_digits(x, d).drop_last() =~= padded_digits(x / 10, d1));
        assert(pow10(d) == 10 * pow10(d1));
        lemma_pow10_monotone(0, d1);
        assert(pow10(0) == 1);
        vstd::arithmetic::div_mod::lemma_mod_breakdown(x as int, 10, pow10(d1) as int);
    }
}

proof fn lemma_digits_value_concat(a: Seq<char>, b: Seq<char>)
    ensures
        digits_value(a + b) == digits_value(a) * pow10(b.len()) + digits_value(b),
    decreases b.len(),
{
    if b.len() == 0 {
        assert(a + b =~= a);
        assert(pow10(0) == 1);
    } else {
        let b1 = b.drop_last();
        lemma_digits_value_concat(a, b1);
        assert((a + b).drop_last() =~= a + b1);
        assert((a + b).last() == b.last());
        assert(pow10(b.len()) == 10 * pow10(b1.len()));
        let x = digits_value(a);
        let p = pow10(b1.len());
        let y = digits_value(b1);
        assert((x * p + y) * 10 == x * (10 * p) + y * 10) by (nonlinear_arith);
    }
}

/// `digits_end` stops at the first place that is not a digit.
proof fn lemma_digits_end_at(t: Seq<char>, i: nat, j: nat)
    requires
        i <= j <= t.len(),
        forall|k: int| i <= k < j ==> is_digit(#[trigger] t[k]),
        j == t.len() || !is_digit(t[j as int]),
    ensures
        digits_end(t, i) == j,
    decreases j - i,
{
    if i < j {
        lemma_digits_end_at(t, i + 1, j);
    }
}

/// An optional minus sign and the decimal text of an integer below
/// `10^18` read as that integer.
proof fn lemma_integer_text_reads_back(sign: Seq<char>, n: nat)
    requires
        sign.len() <= 1,
        sign.len() == 1 ==> sign[0] == '-',
        n < DEC_LIMIT,
    ensures
        unsigned_number_at(sign + decimal(n), sign.len()) == Some((Decimal { m: n as i128, s: 0 }, (sign + decimal(n)).len())),
{
    let t = sign + decimal(n);
    let start = sign.len();
    lemma_decimal_reads_back(n);
    lemma_pow10_values();
    lemma_decimal_len(n, 18);
    assert(forall|k: int| start <= k < t.len() ==> t[k] == decimal(n)[k - start]);
    lemma_digits_end_at(t, start, t.len());
    assert(t.subrange(start as int, t.len() as int) =~= decimal(n));
    assert(normalized(n, 0) == (n, 0nat));
}

/// An optional minus sign, the decimal text of `ip`, a point and the `s`
/// padded digits of `fp` read as `ip * 10^s + fp` with `s` places, when
/// the last digit is not zero.
proof fn lemma_fraction_text_reads_back(sign: Seq<char>, ip: nat, fp: nat, s: nat)
    requires
        sign.len() <= 1,
        sign.len() == 1 ==> sign[0] == '-',
        1 <= s <= MAX_SCALE,
        0 < fp < pow10(s),
        fp % 10 != 0,
        ip * pow10(s) + fp < DEC_LIMIT,
        ip < pow10((18 - s) as nat),
    ensures
        unsigned_number_at(sign + decimal(ip) + seq!['.'] + padded_digits(fp, s), sign.len()) == Some(
            (Decimal { m: (ip * pow10(s) + fp) as i128, s: s as u32 }, (sign + decimal(ip) + seq!['.'] + padded_digits(fp, s)).len()),
        ),
{
    let di = decimal(ip);
    let pd = padded_digits(fp, s);
    let t = sign + di + seq!['.'] + pd;
    let start = sign.len();
    let num = ip * pow10(s) + fp;
    lemma_decimal_reads_back(ip);
    lemma_padded_reads_back(fp, s);
    lemma_decimal_len(ip, (18 - s) as nat);
    let j = start + di.len();
    assert(forall|k: int| start <= k < j ==> t[k] == di[k - start]);
    assert(forall|k: int| j + 1 <= k < t.len() ==> t[k] == pd[k - j - 1]);
    assert(t[j as int] == '.');
    lemma_digits_end_at(t, start, j);
    lemma_digits_end_at(t, j + 1, t.len());
    assert(t.subrange(start as int, j as int) =~= di);
    assert(t.subrange(j + 1int, t.len() as int) =~= pd);
    lemma_digits_value_concat(di, pd);
    vstd::arithmetic::div_mod::lemma_small_mod(fp, pow10(s));
    assert(pow10(s) == 10 * pow10((s - 1) as nat));
    assert((ip * pow10(s)) % 10 == 0) by {
        vstd::arithmetic::div_mod::lemma_mod_multiples_basic((ip * pow10((s - 1) as nat)) as int, 10);
        assert(ip * pow10(s) == (ip * pow10((s - 1) as nat)) * 10) by (nonlinear_arith)
            requires
                pow10(s) == 10 * pow10((s - 1) as nat),
        ;
    }
    vstd::arithmetic::div_mod::lemma_add_mod_noop((ip * pow10(s)) as int, fp as int, 10);
    assert(num % 10 == fp % 10);
    assert(normalized(num, s) == (num, s));
}

/// The decimal text of a well-formed decimal is read as that decimal.
proof fn lemma_decimal_text_reads_back(d: Decimal)
    requires
        wf_decimal(d),
    ensures
        number_literal(decimal_text(d)) == Some(d),
        decimal_text(d).len() > 0,
        decimal_text(d)[0] == '-' || is_digit(decimal_text(d)[0]),
{
    let num = abs(d.m as int);
    let s = d.s as nat;
    let p = pow10(s);
    lemma_pow10_monotone(0, s);
    assert(pow10(0) == 1);
    let ip = num / p;
    let fp = num % p;
    vstd::arithmetic::div_mod::lemma_fundamental_div_mod(num as int, p as int);
    vstd::arithmetic::div_mod::lemma_mod_pos_bound(num as int, p as int);
    let sign = if d.m < 0 && num > 0 {
        seq!['-']
    } else {
        Seq::<char>::empty()
    };
    let t = decimal_text(d);
    lemma_decimal_reads_back(ip);
    if s == 0 {
        assert(p == 1);
        assert(p * ip == ip) by (nonlinear_arith)
            requires
                p == 1,
        ;
        assert(fp == 0 && ip == num);
        assert(t =~= sign + decimal(ip));
        lemma_integer_text_reads_back(sign, ip);
    } else {
        lemma_pow10_values();
        lemma_pow10_add((18 - s) as nat, s);
        assert(ip < pow10((18 - s) as nat)) by (nonlinear_arith)
            requires
                num == p * ip + fp,
                0 <= fp,
                num < pow10((18 - s) as nat) * p,
                p >= 1,
        ;
        assert(p == 10 * pow10((s - 1) as nat));
        vstd::arithmetic::div_mod::lemma_mod_mod(num as int, 10, pow10((s - 1) as nat) as int);
        assert(fp % 10 == num % 10);
        assert(fraction_digits(fp, s) == padded_digits(fp, s));
        assert(t =~= sign + decimal(ip) + seq!['.'] + padded_digits(fp, s));
        assert(ip * p + fp == num) by (nonlinear_arith)
            requires
                num == p * ip + fp,
        ;
        lemma_fraction_text_reads_back(sign, ip, fp, s);
    }
}

/// Text that starts with a digit or `-` is neither a keyword nor an error
/// code.
proof fn lemma_not_keyword(t: Seq<char>)
    requires
        t.len() > 0,
        t[0] == '-' || is_digit(t[0]),
    ensures
        upper_text(t) != "TRUE"@,
        upper_text(t) != "FALSE"@,
        error_literal(t) is None,
{
    reveal_strlit("TRUE");
    reveal_strlit("FALSE");
    reveal_strlit("#CIRC!");
    reveal_strlit("#DIV/0!");
    reveal_strlit("#VALUE!");
    reveal_strlit("#REF!");
    reveal_strlit("#NAME?");
    reveal_strlit("#NUM!");
    reveal_strlit("#N/A");
    reveal_strlit("#ERROR!");
    assert(upper_text(t)[0] == t[0]);
}

/// The decimal text of a well-formed decimal is read as that number.
pub proof fn lemma_decimal_text_classifies(d: Decimal)
    requires
        wf_decimal(d),
    ensures
        classify(decimal_text(d)) == ContentView::Value(ValueView::Number(d)),
{
    lemma_decimal_text_reads_back(d);
    lemma_not_keyword(decimal_text(d));
}

/// An error code is read as that error.
pub proof fn lemma_error_text_classifies(e: ErrorKind)
    ensures
        classify(error_text(e)) == ContentView::Value(ValueView::Error(e)),
{
    reveal_strlit("TRUE");
    reveal_strlit("FALSE");
    reveal_strlit("#CIRC!");
    reveal_strlit("#DIV/0!");
    reveal_strlit("#VALUE!");
    reveal_strlit("#REF!");
    reveal_strlit("#NAME?");
    reveal_strlit("#NUM!");
    reveal_strlit("#N/A");
    reveal_strlit("#ERROR!");
    let t = error_text(e);
    assert(upper_text(t) =~= t);
    assert(t[0] == '#');
}

/// `TRUE` and `FALSE` are read as booleans.
pub proof fn lemma_boolean_text_classifies(b: bool)
    ensures
        classify(if b { "TRUE"@ } else { "FALSE"@ }) == ContentView::Value(ValueView::Boolean(b)),
{
    reveal_strlit("TRUE");
    reveal_strlit("FALSE");
    let t: Seq<char> = if b { "TRUE"@ } else { "FALSE"@ };
    assert(upper_text(t) =~= t);
}


} // verus!
