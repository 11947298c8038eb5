//! Text building blocks: decimal and hexadecimal rendering of integers,
//! spreadsheet column letters, and CP437 decoding.

use vstd::prelude::*;

verus! {

/// `String::push`: appends one character to the end of a string.
#[verifier::external_body]
pub(crate) fn push_char(s: &mut String, c: char)
    ensures
        final(s)@ == old(s)@.push(c),
{
    s.push(c)
}

/// The ASCII digit for `d` (`d < 10`).
pub open spec fn digit_char(d: nat) -> char {
    (48 + d) as char
}

/// Decimal text of a natural number, without leading zeros.
pub open spec fn decimal(n: nat) -> Seq<char>
    decreases n,
{
    if n < 10 {
        seq![digit_char(n)]
    } else {
        decimal(n / 10).push(digit_char(n % 10))
    }
}

fn digit(d: u128) -> (c: char)
    requires
        d < 10,
    ensures
        c == digit_char(d as nat),
{
    let b: u8 = 48u8 + (d as u8);
    b as char
}

/// Appends the decimal text of `n`.
pub fn push_decimal(s: &mut String, n: u128)
    ensures
        final(s)@ == old(s)@ + decimal(n as nat),
    decreases n,
{
    if n >= 10 {
        push_decimal(s, n / 10);
    }
    push_char(s, digit(n % 10));
    proof {
        assert(decimal(n as nat) == if n < 10 {
            seq![digit_char(n as nat)]
        } else {
            decimal((n / 10) as nat).push(digit_char((n % 10) as nat))
        });
    }
}


/// Letter `A` + `r` (`r < 26`).
pub open spec fn letter_char(r: nat) -> char {
    (65 + r) as char
}

/// Spreadsheet column letters for the zero-based column `c`:
/// `0 -> A`, `25 -> Z`, `26 -> AA`, ... (bijective base 26).
pub open spec fn column_letters(c: nat) -> Seq<char>
    decreases c,
{
    if c < 26 {
        seq![letter_char(c)]
    } else {
        column_letters((c / 26 - 1) as nat).push(letter_char(c % 26))
    }
}

/// The zero-based column named by a sequence of upper-case letters, read
/// as a bijective base-26 numeral (`A = 0`, `AA = 26`).
pub open spec fn letters_value(s: Seq<char>) -> int
    decreases s.len(),
{
    if s.len() == 0 {
        -1
    } else {
        (letters_value(s.drop_last()) + 1) * 26 + (s.last() as int - 65)
    }
}

pub(crate) fn push_column_letters(s: &mut String, c: u32)
    ensures
        final(s)@ == old(s)@ + column_letters(c as nat),
    decreases c,
{
    if c >= 26 {
        push_column_letters(s, c / 26 - 1);
    }
    let r: u8 = (c % 26) as u8;
    push_char(s, (65u8 + r) as char);
}

/// Column letters of the zero-based column `c` (`0 -> "A"`, `26 -> "AA"`).
pub fn col_letters(c: u32) -> (out: String)
    ensures
        out@ == column_letters(c as nat),
{
    let mut out = String::new();
    push_column_letters(&mut out, c);
    out
}

/// Reading back the letters of a column gives the column.
pub proof fn lemma_letters_value_of_column_letters(c: nat)
    ensures
        letters_value(column_letters(c)) == c,
    decreases c,
{
    if c >= 26 {
        let q = (c / 26 - 1) as nat;
        lemma_letters_value_of_column_letters(q);
        let s = column_letters(c);
        assert(s.drop_last() == column_letters(q));
        assert(s.last() as int == 65 + c % 26);
        assert((q + 1) * 26 + c % 26 == c) by (nonlinear_arith)
            requires q == c / 26 - 1, c >= 26;
        assert(letters_value(s) == (letters_value(s.drop_last()) + 1) * 26 + (s.last() as int - 65));
    } else {
        let s = column_letters(c);
        assert(s.drop_last() =~= Seq::<char>::empty());
        assert(s.last() as int == 65 + c);
        assert(letters_value(s.drop_last()) == -1);
        assert(letters_value(s) == (letters_value(s.drop_last()) + 1) * 26 + (s.last() as int - 65));
    }
}

/// Distinct columns have distinct letters.
pub proof fn law_column_letters_injective(a: nat, b: nat)
    requires
        column_letters(a) == column_letters(b),
    ensures
        a == b,
{
    lemma_letters_value_of_column_letters(a);
    lemma_letters_value_of_column_letters(b);
}

/// Lower-case hexadecimal digit for `d < 16`.
pub open spec fn hex_char(d: nat) -> char {
    if d < 10 {
        (48 + d) as char
    } else {
        (87 + d) as char
    }
}

/// Four lower-case hexadecimal digits of `n`, zero padded (`{:04x}`).
pub open spec fn hex4(n: u16) -> Seq<char> {
    seq![
        hex_char((n / 4096) as nat),
        hex_char((n / 256 % 16) as nat),
        hex_char((n / 16 % 16) as nat),
        hex_char((n % 16) as nat),
    ]
}

fn hex_digit(d: u16) -> (c: char)
    requires
        d < 16,
    ensures
        c == hex_char(d as nat),
{
    let b: u8 = d as u8;
    if b < 10 {
        (48u8 + b) as char
    } else {
        (87u8 + b) as char
    }
}

/// Appends the four-digit lower-case hexadecimal text of `n`.
pub fn push_hex4(s: &mut String, n: u16)
    ensures
        final(s)@ == old(s)@ + hex4(n),
{
    push_char(s, hex_digit(n / 4096));
    push_char(s, hex_digit(n / 256 % 16));
    push_char(s, hex_digit(n / 16 % 16));
    push_char(s, hex_digit(n % 16));
}

/// The character that code page 437 (the DOS character set Lotus files use)
/// assigns to byte `b`; bytes below 0x80 are ASCII.
pub open spec fn cp437(b: u8) -> char {
    if b < 0x80 {
        b as char
    } else {
        match b {
            0x80 => '\u{00C7}',
            0x81 => '\u{00FC}',
            0x82 => '\u{00E9}',
            0x83 => '\u{00E2}',
            0x84 => '\u{00E4}',
            0x85 => '\u{00E0}',
            0x86 => '\u{00E5}',
            0x87 => '\u{00E7}',
            0x88 => '\u{00EA}',
            0x89 => '\u{00EB}',
            0x8A => '\u{00E8}',
            0x8B => '\u{00EF}',
            0x8C => '\u{00EE}',
            0x8D => '\u{00EC}',
            0x8E => '\u{00C4}',
            0x8F => '\u{00C5}',
            0x90 => '\u{00C9}',
            0x91 => '\u{00E6}',
            0x92 => '\u{00C6}',
            0x93 => '\u{00F4}',
            0x94 => '\u{00F6}',
            0x95 => '\u{00F2}',
            0x96 => '\u{00FB}',
            0x97 => '\u{00F9}',
            0x98 => '\u{00FF}',
            0x99 => '\u{00D6}',
            0x9A => '\u{00DC}',
            0x9B => '\u{00A2}',
            0x9C => '\u{00A3}',
            0x9D => '\u{00A5}',
            0x9E => '\u{20A7}',
            0x9F => '\u{0192}',
            0xA0 => '\u{00E1}',
            0xA1 => '\u{00ED}',
            0xA2 => '\u{00F3}',
            0xA3 => '\u{00FA}',
            0xA4 => '\u{00F1}',
            0xA5 => '\u{00D1}',
            0xA6 => '\u{00AA}',
            0xA7 => '\u{00BA}',
            0xA8 => '\u{00BF}',
            0xA9 => '\u{2310}',
            0xAA => '\u{00AC}',
            0xAB => '\u{00BD}',
            0xAC => '\u{00BC}',
            0xAD => '\u{00A1}',
            0xAE => '\u{00AB}',
            0xAF => '\u{00BB}',
            0xB0 => '\u{2591}',
            0xB1 => '\u{2592}',
            0xB2 => '\u{2593}',
            0xB3 => '\u{2502}',
            0xB4 => '\u{2524}',
            0xB5 => '\u{2561}',
            0xB6 => '\u{2562}',
            0xB7 => '\u{2556}',
            0xB8 => '\u{2555}',
            0xB9 => '\u{2563}',
            0xBA => '\u{2551}',
            0xBB => '\u{2557}',
            0xBC => '\u{255D}',
            0xBD => '\u{255C}',
            0xBE => '\u{255B}',
            0xBF => '\u{2510}',
            0xC0 => '\u{2514}',
            0xC1 => '\u{2534}',
            0xC2 => '\u{252C}',
            0xC3 => '\u{251C}',
            0xC4 => '\u{2500}',
            0xC5 => '\u{253C}',
            0xC6 => '\u{255E}',
            0xC7 => '\u{255F}',
            0xC8 => '\u{255A}',
            0xC9 => '\u{2554}',
            0xCA => '\u{2569}',
            0xCB => '\u{2566}',
            0xCC => '\u{2560}',
            0xCD => '\u{2550}',
            0xCE => '\u{256C}',
            0xCF => '\u{2567}',
            0xD0 => '\u{2568}',
            0xD1 => '\u{2564}',
            0xD2 => '\u{2565}',
            0xD3 => '\u{2559}',
            0xD4 => '\u{2558}',
            0xD5 => '\u{2552}',
            0xD6 => '\u{2553}',
            0xD7 => '\u{256B}',
            0xD8 => '\u{256A}',
            0xD9 => '\u{2518}',
            0xDA => '\u{250C}',
            0xDB => '\u{2588}',
            0xDC => '\u{2584}',
            0xDD => '\u{258C}',
            0xDE => '\u{2590}',
            0xDF => '\u{2580}',
            0xE0 => '\u{03B1}',
            0xE1 => '\u{00DF}',
            0xE2 => '\u{0393}',
            0xE3 => '\u{03C0}',
            0xE4 => '\u{03A3}',
            0xE5 => '\u{03C3}',
            0xE6 => '\u{00B5}',
            0xE7 => '\u{03C4}',
            0xE8 => '\u{03A6}',
            0xE9 => '\u{0398}',
            0xEA => '\u{03A9}',
            0xEB => '\u{03B4}',
            0xEC => '\u{221E}',
            0xED => '\u{03C6}',
            0xEE => '\u{03B5}',
            0xEF => '\u{2229}',
            0xF0 => '\u{2261}',
            0xF1 => '\u{00B1}',
            0xF2 => '\u{2265}',
            0xF3 => '\u{2264}',
            0xF4 => '\u{2320}',
            0xF5 => '\u{2321}',
            0xF6 => '\u{00F7}',
            0xF7 => '\u{2248}',
            0xF8 => '\u{00B0}',
            0xF9 => '\u{2219}',
            0xFA => '\u{00B7}',
            0xFB => '\u{221A}',
            0xFC => '\u{207F}',
            0xFD => '\u{00B2}',
            0xFE => '\u{25A0}',
            0xFF => '\u{00A0}',
            _ => '\u{00A0}',
        }
    }
}

pub(crate) fn cp437_char(b: u8) -> (c: char)
    ensures
        c == cp437(b),
{
    if b < 0x80 {
        b as char
    } else {
        match b {
            0x80 => '\u{00C7}',
            0x81 => '\u{00FC}',
            0x82 => '\u{00E9}',
            0x83 => '\u{00E2}',
            0x84 => '\u{00E4}',
            0x85 => '\u{00E0}',
            0x86 => '\u{00E5}',
            0x87 => '\u{00E7}',
            0x88 => '\u{00EA}',
            0x89 => '\u{00EB}',
            0x8A => '\u{00E8}',
            0x8B => '\u{00EF}',
            0x8C => '\u{00EE}',
            0x8D => '\u{00EC}',
            0x8E => '\u{00C4}',
            0x8F => '\u{00C5}',
            0x90 => '\u{00C9}',
            0x91 => '\u{00E6}',
            0x92 => '\u{00C6}',
            0x93 => '\u{00F4}',
            0x94 => '\u{00F6}',
            0x95 => '\u{00F2}',
            0x96 => '\u{00FB}',
            0x97 => '\u{00F9}',
            0x98 => '\u{00FF}',
            0x99 => '\u{00D6}',
            0x9A => '\u{00DC}',
            0x9B => '\u{00A2}',
            0x9C => '\u{00A3}',
            0x9D => '\u{00A5}',
            0x9E => '\u{20A7}',
            0x9F => '\u{0192}',
            0xA0 => '\u{00E1}',
            0xA1 => '\u{00ED}',
            0xA2 => '\u{00F3}',
            0xA3 => '\u{00FA}',
            0xA4 => '\u{00F1}',
            0xA5 => '\u{00D1}',
            0xA6 => '\u{00AA}',
            0xA7 => '\u{00BA}',
            0xA8 => '\u{00BF}',
            0xA9 => '\u{2310}',
            0xAA => '\u{00AC}',
            0xAB => '\u{00BD}',
            0xAC => '\u{00BC}',
            0xAD => '\u{00A1}',
            0xAE => '\u{00AB}',
            0xAF => '\u{00BB}',
            0xB0 => '\u{2591}',
            0xB1 => '\u{2592}',
            0xB2 => '\u{2593}',
            0xB3 => '\u{2502}',
            0xB4 => '\u{2524}',
            0xB5 => '\u{2561}',
            0xB6 => '\u{2562}',
            0xB7 => '\u{2556}',
            0xB8 => '\u{2555}',
            0xB9 => '\u{2563}',
            0xBA => '\u{2551}',
            0xBB => '\u{2557}',
            0xBC => '\u{255D}',
            0xBD => '\u{255C}',
            0xBE => '\u{255B}',
            0xBF => '\u{2510}',
            0xC0 => '\u{2514}',
            0xC1 => '\u{2534}',
            0xC2 => '\u{252C}',
            0xC3 => '\u{251C}',
            0xC4 => '\u{2500}',
            0xC5 => '\u{253C}',
            0xC6 => '\u{255E}',
            0xC7 => '\u{255F}',
            0xC8 => '\u{255A}',
            0xC9 => '\u{2554}',
            0xCA => '\u{2569}',
            0xCB => '\u{2566}',
            0xCC => '\u{2560}',
            0xCD => '\u{2550}',
            0xCE => '\u{256C}',
            0xCF => '\u{2567}',
            0xD0 => '\u{2568}',
            0xD1 => '\u{2564}',
            0xD2 => '\u{2565}',
            0xD3 => '\u{2559}',
            0xD4 => '\u{2558}',
            0xD5 => '\u{2552}',
            0xD6 => '\u{2553}',
            0xD7 => '\u{256B}',
            0xD8 => '\u{256A}',
            0xD9 => '\u{2518}',
            0xDA => '\u{250C}',
            0xDB => '\u{2588}',
            0xDC => '\u{2584}',
            0xDD => '\u{258C}',
            0xDE => '\u{2590}',
            0xDF => '\u{2580}',
            0xE0 => '\u{03B1}',
            0xE1 => '\u{00DF}',
            0xE2 => '\u{0393}',
            0xE3 => '\u{03C0}',
            0xE4 => '\u{03A3}',
            0xE5 => '\u{03C3}',
            0xE6 => '\u{00B5}',
            0xE7 => '\u{03C4}',
            0xE8 => '\u{03A6}',
            0xE9 => '\u{0398}',
            0xEA => '\u{03A9}',
            0xEB => '\u{03B4}',
            0xEC => '\u{221E}',
            0xED => '\u{03C6}',
            0xEE => '\u{03B5}',
            0xEF => '\u{2229}',
            0xF0 => '\u{2261}',
            0xF1 => '\u{00B1}',
            0xF2 => '\u{2265}',
            0xF3 => '\u{2264}',
            0xF4 => '\u{2320}',
            0xF5 => '\u{2321}',
            0xF6 => '\u{00F7}',
            0xF7 => '\u{2248}',
            0xF8 => '\u{00B0}',
            0xF9 => '\u{2219}',
            0xFA => '\u{00B7}',
            0xFB => '\u{221A}',
            0xFC => '\u{207F}',
            0xFD => '\u{00B2}',
            0xFE => '\u{25A0}',
            0xFF => '\u{00A0}',
            _ => '\u{00A0}',
        }
    }
}

/// The text of `bytes` read as code page 437.
pub open spec fn cp437_text(bytes: Seq<u8>) -> Seq<char> {
    bytes.map_values(|b: u8| cp437(b))
}

/// Decodes CP437 bytes to a string, one character per byte.
pub fn cp437_to_string(bytes: &[u8]) -> (s: String)
    ensures
        s@ == cp437_text(bytes@),
{
    let mut s = String::new();
    let mut i: usize = 0;
    while i < bytes.len()
        invariant
            i <= bytes@.len(),
            s@ == cp437_text(bytes@.take(i as int)),
        decreases bytes@.len() - i,
    {
        push_char(&mut s, cp437_char(bytes[i]));
        i += 1;
        assert(bytes@.take(i as int) == bytes@.take((i - 1) as int).push(bytes@[i - 1]));
    }
    assert(bytes@.take(i as int) == bytes@);
    s
}


/// Whether `char::is_alphanumeric` holds of `c` (Unicode `Alphabetic` or
/// `Numeric`).
pub uninterp spec fn is_alphanumeric(c: char) -> bool;

/// Whether every character of `s` is ASCII.
pub open spec fn all_ascii(s: Seq<char>) -> bool {
    forall|i: int| 0 <= i < s.len() ==> (#[trigger] s[i] as u32) < 128
}

/// ASCII letter or digit.
pub open spec fn is_ascii_alphanumeric(c: char) -> bool {
    ('0' <= c <= '9') || ('a' <= c <= 'z') || ('A' <= c <= 'Z')
}

/// A letter or digit: for ASCII the ASCII letters and digits, otherwise
/// what `char::is_alphanumeric` says ([`is_alphanumeric`]).
pub open spec fn alphanumeric(c: char) -> bool {
    if (c as u32) < 128 {
        is_ascii_alphanumeric(c)
    } else {
        is_alphanumeric(c)
    }
}

/// `char::is_alphanumeric`. Its result is named [`is_alphanumeric`]; for
/// ASCII characters the standard library documents it as the ASCII letters
/// and digits, which is all that is stated of it here.
#[verifier::external_body]
pub(crate) fn char_is_alphanumeric(c: char) -> (r: bool)
    ensures
        r == is_alphanumeric(c),
        (c as u32) < 128 ==> (r <==> is_ascii_alphanumeric(c)),
{
    c.is_alphanumeric()
}

/// Whether `c` has the Unicode `White_Space` property (what
/// `char::is_whitespace` tests): U+0009 to U+000D, U+0020, U+0085, U+00A0,
/// U+1680, U+2000 to U+200A, U+2028, U+2029, U+202F, U+205F and U+3000.
pub open spec fn is_whitespace(c: char) -> bool {
    let u = c as u32;
    (0x09 <= u <= 0x0D) || u == 0x20 || u == 0x85 || u == 0xA0 || u == 0x1680 || (0x2000 <= u <= 0x200A)
        || u == 0x2028 || u == 0x2029 || u == 0x202F || u == 0x205F || u == 0x3000
}

/// Whether `c` is white space (see [`is_whitespace`]).
pub(crate) fn char_is_whitespace(c: char) -> (r: bool)
    ensures
        r == is_whitespace(c),
        (c as u32) < 128 ==> (r <==> (c == ' ' || ('\t' <= c <= '\r'))),
{
    let u = c as u32;
    (0x09 <= u && u <= 0x0D) || u == 0x20 || u == 0x85 || u == 0xA0 || u == 0x1680 || (0x2000 <= u && u <= 0x200A)
        || u == 0x2028 || u == 0x2029 || u == 0x202F || u == 0x205F || u == 0x3000
}

/// Whether two strings have the same characters.
pub fn str_eq(a: &str, b: &str) -> (r: bool)
    ensures
        r == (a@ == b@),
{
    String::from_str(a) == String::from_str(b)
}

/// Code page 437 agrees with ASCII on the bytes below 0x80, and every byte
/// decodes to one character: the text of `bytes` has one character per
/// byte.
pub proof fn law_cp437_extends_ascii(bytes: Seq<u8>)
    ensures
        cp437_text(bytes).len() == bytes.len(),
        forall|i: int| 0 <= i < bytes.len() && bytes[i] < 0x80 ==> #[trigger] cp437_text(bytes)[i] == bytes[i] as char,
{
}

} // verus!
