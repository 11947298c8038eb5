//! Numbers stored in WK3 files and their decimal text.
//!
//! Lotus stores numbers in four encodings: IEEE doubles, 16-bit and 32-bit
//! packed decimals, and x87 80-bit extended doubles. A number is written to
//! the workbook as the text a spreadsheet user would type: integers as
//! plain digits, other values as the shortest decimal that reads back as
//! the same binary double. Where that text follows from integer arithmetic
//! alone it is produced here; otherwise the number is kept in its encoded
//! form, as a [`Piece::Number`], and rendered by the caller.

use vstd::arithmetic::div_mod::{lemma_fundamental_div_mod, lemma_small_mod};
use vstd::arithmetic::power2::{lemma2_to64_rest, lemma_pow2_pos, lemma_pow2_strictly_increases, pow2};
use vstd::bits::{lemma_u64_shl_is_mul, lemma_u64_shr_is_div};
use vstd::prelude::*;

use crate::text::{decimal, digit_char, push_char, push_decimal};

verus! {

/// A number as encoded in a WK3 file.
#[derive(Clone, Copy, Debug, PartialEq, Eq)]
pub enum Number {
    /// An IEEE 754 double, by its bit pattern.
    Double(u64),
    /// A 16-bit packed number (SMALLNUMCELL).
    Small(i16),
    /// An x87 80-bit extended double, little endian.
    Extended([u8; 10]),
}

/// A fragment of text typed into a cell: literal characters, or a number
/// whose decimal text depends on binary floating-point rounding.
#[derive(Clone, Debug)]
pub enum Piece {
    Text(String),
    Number(Number),
}

/// The content of a [`Piece`].
pub enum PieceView {
    Text(Seq<char>),
    Number(Number),
}

impl View for Piece {
    type V = PieceView;

    open spec fn view(&self) -> PieceView {
        match self {
            Piece::Text(s) => PieceView::Text(s@),
            Piece::Number(n) => PieceView::Number(*n),
        }
    }
}

/// `10^d`.
pub open spec fn pow10(d: nat) -> nat
    decreases d,
{
    if d == 0 {
        1
    } else {
        10 * pow10((d - 1) as nat)
    }
}

/// The `d` decimal digits of `x % 10^d`, zero padded on the left.
pub open spec fn padded_digits(x: nat, d: nat) -> Seq<char>
    decreases d,
{
    if d == 0 {
        Seq::empty()
    } else {
        padded_digits(x / 10, (d - 1) as nat).push(digit_char(x % 10))
    }
}

/// The digits after the decimal point of `x / 10^d` (`0 < x < 10^d`),
/// without trailing zeros.
pub open spec fn fraction_digits(x: nat, d: nat) -> Seq<char>
    decreases d,
{
    if d > 0 && x % 10 == 0 && x > 0 {
        fraction_digits(x / 10, (d - 1) as nat)
    } else {
        padded_digits(x, d)
    }
}

/// Decimal text of the value `±num / 10^d`, as Rust prints a double that
/// holds exactly this value: no exponent, no trailing zeros after the point,
/// no point for integers, and `0` (no sign) for zero.
pub open spec fn decimal_fraction(neg: bool, num: nat, d: nat) -> Seq<char> {
    let ip = num / pow10(d);
    let fp = num % pow10(d);
    let sign = if neg && num > 0 {
        seq!['-']
    } else {
        Seq::<char>::empty()
    };
    if fp == 0 {
        sign + decimal(ip)
    } else {
        sign + decimal(ip) + seq!['.'] + fraction_digits(fp, d)
    }
}

/// Integer value of an IEEE double, or `None` when it is not a finite
/// integer. `bits` is the double's bit pattern: sign bit, 11 exponent bits,
/// 52 fraction bits.
pub open spec fn double_integer(bits: u64) -> Option<int> {
    let neg = bits >= 0x8000_0000_0000_0000;
    let e = (bits / 0x10_0000_0000_0000) % 2048;
    let m = bits % 0x10_0000_0000_0000;
    let full: nat = (0x10_0000_0000_0000 + m) as nat;
    let magnitude: Option<nat> = if e == 0 {
        if m == 0 {
            Some(0)
        } else {
            None
        }
    } else if e == 2047 {
        None
    } else if e >= 1075 {
        Some(full * pow2((e - 1075) as nat))
    } else if full % pow2((1075 - e) as nat) == 0 {
        Some(full / pow2((1075 - e) as nat))
    } else {
        None
    };
    match magnitude {
        Some(v) => Some(
            if neg {
                -v
            } else {
                v as int
            },
        ),
        None => None,
    }
}

/// Whether an IEEE double is infinite or NaN.
pub open spec fn double_non_finite(bits: u64) -> bool {
    (bits / 0x10_0000_0000_0000) % 2048 == 2047
}

/// Text of an IEEE double when it follows from integer arithmetic: `#NUM!`
/// for infinities and NaN, the digits for integers below 10^15 in
/// magnitude; `None` for every other double.
pub open spec fn double_text(bits: u64) -> Option<Seq<char>> {
    if double_non_finite(bits) {
        Some("#NUM!"@)
    } else {
        match double_integer(bits) {
            Some(v) => if -1_000_000_000_000_000 < v < 1_000_000_000_000_000 {
                Some(decimal_fraction(v < 0, (if v < 0 { -v } else { v }) as nat, 0))
            } else {
                None
            },
            None => None,
        }
    }
}

/// Text of a 16-bit packed number when it is exact in decimal.
///
/// Bit 0 clear: the value is the rest of the word, `n >> 1`. Bit 0 set: bits
/// 1-3 select a factor (5000, 500, 0.05, 0.005, 0.0005, 0.00005, 1/16, 1/64)
/// that multiplies `n >> 4`. The decimal factors 0.05 ... 0.00005 are not
/// exact binary fractions, so those values are `None` here.
pub open spec fn small_text(n: i16) -> Option<Seq<char>> {
    let v = n as int;
    if v % 2 == 0 {
        let h = v / 2;
        Some(decimal_fraction(h < 0, (if h < 0 { -h } else { h }) as nat, 0))
    } else {
        let k = v / 16;
        let mag = (if k < 0 { -k } else { k }) as nat;
        let idx = (v / 2) % 8;
        if idx == 0 {
            Some(decimal_fraction(k < 0, mag * 5000, 0))
        } else if idx == 1 {
            Some(decimal_fraction(k < 0, mag * 500, 0))
        } else if idx == 6 {
            Some(decimal_fraction(k < 0, mag * 625, 4))
        } else if idx == 7 {
            Some(decimal_fraction(k < 0, mag * 15625, 6))
        } else {
            None
        }
    }
}

/// Text of a number when it follows from integer arithmetic.
pub open spec fn number_text(n: Number) -> Option<Seq<char>> {
    match n {
        Number::Double(bits) => double_text(bits),
        Number::Small(v) => small_text(v),
        Number::Extended(_) => None,
    }
}

/// Text of a 32-bit packed number (formula token FT_Snum). Bits 6-31 hold
/// an integer `n`, bits 0-3 a power of ten `e`; bit 4 set divides `n` by
/// `10^e`, clear multiplies; bit 5 set negates.
pub open spec fn snum32_text(v: u32) -> Seq<char> {
    let n = (v / 64) as nat;
    let e = (v % 16) as nat;
    let divide = (v / 16) % 2 == 1;
    let neg = (v / 32) % 2 == 1;
    if divide {
        decimal_fraction(neg, n, e)
    } else {
        decimal_fraction(neg, n * pow10(e), 0)
    }
}

/// Pieces that stand for a number: its text when known, else the number.
pub open spec fn number_pieces(n: Number) -> Seq<PieceView> {
    match number_text(n) {
        Some(t) => seq![PieceView::Text(t)],
        None => seq![PieceView::Number(n)],
    }
}

pub(crate) fn pow10_exec(d: u32) -> (p: u128)
    requires
        d <= 30,
    ensures
        p == pow10(d as nat),
{
    let mut p: u128 = 1;
    let mut i: u32 = 0;
    proof {
        reveal_with_fuel(pow10, 31);
        assert(pow10(30) == 1_000_000_000_000_000_000_000_000_000_000);
    }
    while i < d
        invariant
            i <= d <= 30,
            p == pow10(i as nat),
            pow10(30) == 1_000_000_000_000_000_000_000_000_000_000,
        decreases d - i,
    {
        proof {
            lemma_pow10_monotone((i + 1) as nat, 30);
        }
        p = p * 10;
        i += 1;
    }
    p
}

/// `10^a <= 10^b` for `a <= b`.
pub proof fn lemma_pow10_monotone(a: nat, b: nat)
    requires
        a <= b,
    ensures
        1 <= pow10(a) <= pow10(b),
    decreases b,
{
    if b > a {
        lemma_pow10_monotone(a, (b - 1) as nat);
    } else if a > 0 {
        lemma_pow10_monotone((a - 1) as nat, (a - 1) as nat);
    }
}

fn push_padded(s: &mut String, x: u128, d: u32)
    ensures
        final(s)@ == old(s)@ + padded_digits(x as nat, d as nat),
    decreases d,
{
    if d > 0 {
        push_padded(s, x / 10, d - 1);
        let r: u8 = (x % 10) as u8;
        push_char(s, (48u8 + r) as char);
    }
}

/// Appends the text of `±num / 10^d` (see [`decimal_fraction`]).
pub fn push_decimal_fraction(s: &mut String, neg: bool, num: u128, d: u32)
    requires
        d <= 30,
    ensures
        final(s)@ == old(s)@ + decimal_fraction(neg, num as nat, d as nat),
{
    let p = pow10_exec(d);
    proof {
        lemma_pow10_monotone(0, d as nat);
    }
    let ip = num / p;
    let fp = num % p;
    if neg && num > 0 {
        push_char(s, '-');
    }
    push_decimal(s, ip);
    if fp != 0 {
        push_char(s, '.');
        let mut x = fp;
        let mut k = d;
        while k > 0 && x % 10 == 0 && x > 0
            invariant
                fraction_digits(x as nat, k as nat) == fraction_digits(fp as nat, d as nat),
            decreases k,
        {
            x = x / 10;
            k = k - 1;
        }
        push_padded(s, x, k);
    }
    proof {
        let sign = if neg && num > 0 {
            seq!['-']
        } else {
            Seq::<char>::empty()
        };
        assert(decimal_fraction(neg, num as nat, d as nat) == if fp == 0 {
            sign + decimal(ip as nat)
        } else {
            sign + decimal(ip as nat) + seq!['.'] + fraction_digits(fp as nat, d as nat)
        });
    }
}

/// Decimal text of an IEEE double when it follows from integer arithmetic.
pub fn double_text_exec(bits: u64) -> (r: Option<String>)
    ensures
        match double_text(bits) {
            Some(t) => r matches Some(s) && s@ == t,
            None => r is None,
        },
{
    let neg = bits >= 0x8000_0000_0000_0000;
    let e = (bits / 0x10_0000_0000_0000) % 2048;
    let m = bits % 0x10_0000_0000_0000;
    if e == 2047 {
        return Some(String::from_str("#NUM!"));
    }
    let full = 0x10_0000_0000_0000u64 + m;
    if e == 0 {
        if m == 0 {
            let mut s = String::new();
            push_decimal_fraction(&mut s, false, 0, 0);
            return Some(s);
        }
        return None;
    }
    if e >= 1075 {
        proof {
            lemma_pow2_pos((e - 1075) as nat);
            assert(full * pow2((e - 1075) as nat) >= full) by (nonlinear_arith)
                requires
                    pow2((e - 1075) as nat) >= 1,
            ;
        }
        return None;
    }
    let k = 1075 - e;
    if k >= 53 {
        proof {
            lemma2_to64_rest();
            if k > 53 {
                lemma_pow2_strictly_increases(53, k as nat);
            }
            lemma_small_mod(full as nat, pow2(k as nat));
        }
        return None;
    }
    let q = full >> k;
    proof {
        lemma_u64_shr_is_div(full, k);
        lemma_pow2_pos(k as nat);
        lemma_fundamental_div_mod(full as int, pow2(k as nat) as int);
        assert(q * pow2(k as nat) <= full) by (nonlinear_arith)
            requires
                q == full as nat / pow2(k as nat),
                pow2(k as nat) > 0,
        ;
        lemma_u64_shl_is_mul(q, k);
    }
    if (q << k) != full {
        proof {
            assert(pow2(k as nat) * q == q * pow2(k as nat)) by (nonlinear_arith);
        }
        return None;
    }
    proof {
        assert(full == q * pow2(k as nat));
        vstd::arithmetic::div_mod::lemma_mod_multiples_basic(q as int, pow2(k as nat) as int);
        assert((full as nat) % pow2(k as nat) == 0);
    }
    if q >= 1_000_000_000_000_000 {
        return None;
    }
    let mut s = String::new();
    push_decimal_fraction(&mut s, neg, q as u128, 0);
    proof {
        let v: int = if neg {
            -(q as int)
        } else {
            q as int
        };
        assert(double_integer(bits) == Some(v));
        assert(((if v < 0 {
            -v
        } else {
            v
        }) as nat) == q as nat);
        assert(neg && q > 0 <==> v < 0);
        assert(decimal_fraction(v < 0, q as nat, 0) == decimal_fraction(neg, q as nat, 0));
    }
    Some(s)
}

/// Decimal text of a 16-bit packed number when it is exact in decimal.
pub fn small_text_exec(n: i16) -> (r: Option<String>)
    ensures
        match small_text(n) {
            Some(t) => r matches Some(s) && s@ == t,
            None => r is None,
        },
{
    let v = n as i32;
    let mut s = String::new();
    if v % 2 == 0 {
        let h = v / 2;
        let mag: u128 = if h < 0 {
            (-h) as u128
        } else {
            h as u128
        };
        push_decimal_fraction(&mut s, h < 0, mag, 0);
        return Some(s);
    }
    // Euclidean quotients: `v >> 4` and `(v >> 1) & 7` on the 16-bit word.
    let k: i32 = if v >= 0 {
        v / 16
    } else {
        -((-v + 15) / 16)
    };
    let half: i32 = if v >= 0 {
        v / 2
    } else {
        -((-v + 1) / 2)
    };
    let idx: i32 = ((half % 8) + 8) % 8;
    assert(k == (n as int) / 16);
    assert(half == (n as int) / 2);
    assert(idx == ((n as int) / 2) % 8);
    let mag: u128 = if k < 0 {
        (-k) as u128
    } else {
        k as u128
    };
    if idx == 0 {
        push_decimal_fraction(&mut s, k < 0, mag * 5000, 0);
        Some(s)
    } else if idx == 1 {
        push_decimal_fraction(&mut s, k < 0, mag * 500, 0);
        Some(s)
    } else if idx == 6 {
        push_decimal_fraction(&mut s, k < 0, mag * 625, 4);
        Some(s)
    } else if idx == 7 {
        push_decimal_fraction(&mut s, k < 0, mag * 15625, 6);
        Some(s)
    } else {
        None
    }
}

/// Decimal text of a 32-bit packed number.
pub fn snum32_text_exec(v: u32) -> (s: String)
    ensures
        s@ == snum32_text(v),
{
    let n = v / 64;
    let e = v % 16;
    let divide = (v / 16) % 2 == 1;
    let neg = (v / 32) % 2 == 1;
    let mut s = String::new();
    if divide {
        push_decimal_fraction(&mut s, neg, n as u128, e);
    } else {
        let p = pow10_exec(e);
        proof {
            lemma_pow10_monotone(e as nat, 15);
            reveal_with_fuel(pow10, 16);
            assert(pow10(15) == 1_000_000_000_000_000);
            assert(n * p <= 0x4000000 * 1_000_000_000_000_000) by (nonlinear_arith)
                requires
                    n <= 0x4000000,
                    p <= 1_000_000_000_000_000,
            ;
        }
        push_decimal_fraction(&mut s, neg, (n as u128) * p, 0);
    }
    s
}

/// Decimal text of a number when it follows from integer arithmetic.
pub fn number_text_exec(n: Number) -> (r: Option<String>)
    ensures
        match number_text(n) {
            Some(t) => r matches Some(s) && s@ == t,
            None => r is None,
        },
{
    match n {
        Number::Double(bits) => double_text_exec(bits),
        Number::Small(v) => small_text_exec(v),
        Number::Extended(_) => None,
    }
}

/// Whether the text of 16-bit packed number `n` is a decimal `±q / 10^p`
/// whose magnitude is `|n >> 4|` times the factor `num / den`, with the
/// sign of `n >> 4`.
pub open spec fn small_text_is_multiple(n: i16, num: nat, den: nat) -> bool {
    let k = n as int / 16;
    let mag = (if k < 0 {
        -k
    } else {
        k
    }) as nat;
    let neg = k < 0;
    exists|q: nat, p: nat|
        small_text(n) == Some(#[trigger] decimal_fraction(neg, q, p)) && q * den == mag * num * pow10(p)
}

/// What a 16-bit packed number is worth. Bit 0 clear: half the word,
/// rounded down (`n >> 1`). Bit 0 set: `n >> 4` times the factor that bits
/// 1-3 select, 5000, 500, 0.05, 0.005, 0.0005, 0.00005, 1/16 or 1/64 in
/// that order; the four decimal factors have no exact text here.
pub proof fn law_small_number_value(n: i16)
    ensures
        (n as int) % 2 == 0 ==> small_text(n) == Some(
            decimal_fraction(
                n as int / 2 < 0,
                (if n as int / 2 < 0 {
                    -(n as int / 2)
                } else {
                    n as int / 2
                }) as nat,
                0,
            ),
        ),
        (n as int) % 2 == 1 && (n as int / 2) % 8 == 0 ==> small_text_is_multiple(n, 5000, 1),
        (n as int) % 2 == 1 && (n as int / 2) % 8 == 1 ==> small_text_is_multiple(n, 500, 1),
        (n as int) % 2 == 1 && 2 <= (n as int / 2) % 8 <= 5 ==> small_text(n) is None,
        (n as int) % 2 == 1 && (n as int / 2) % 8 == 6 ==> small_text_is_multiple(n, 1, 16),
        (n as int) % 2 == 1 && (n as int / 2) % 8 == 7 ==> small_text_is_multiple(n, 1, 64),
{
    reveal_with_fuel(pow10, 7);
    let k = n as int / 16;
    let mag = (if k < 0 {
        -k
    } else {
        k
    }) as nat;
    let idx = (n as int / 2) % 8;
    if (n as int) % 2 == 1 {
        if idx == 0 {
            assert((mag * 5000) * 1 == mag * 5000 * pow10(0));
        } else if idx == 1 {
            assert((mag * 500) * 1 == mag * 500 * pow10(0));
        } else if idx == 6 {
            assert(pow10(4) == 10000);
            assert((mag * 625) * 16 == mag * 1 * pow10(4));
        } else if idx == 7 {
            assert(pow10(6) == 1000000);
            assert((mag * 15625) * 64 == mag * 1 * pow10(6));
        }
    }
}

/// The pieces that stand for a number: its text when known, else the number.
pub fn number_pieces_exec(n: Number) -> (r: Vec<Piece>)
    ensures
        r@.map_values(|p: Piece| p@) == number_pieces(n),
{
    let mut r = Vec::new();
    match number_text_exec(n) {
        Some(t) => r.push(Piece::Text(t)),
        None => r.push(Piece::Number(n)),
    }
    assert(r@.map_values(|p: Piece| p@) =~= number_pieces(n));
    r
}

} // verus!
