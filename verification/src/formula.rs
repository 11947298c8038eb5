//! Decoding of WK3 tokenised formulas into spreadsheet formula text.
//!
//! A WK3 formula is a postfix token stream: operands push a text fragment,
//! operators and functions pop their arguments and push the combined text,
//! and the Return token ends the stream. The result is plain A1-notation
//! formula text (without the leading `=`). Tokens without a spreadsheet
//! equivalent become `LOTUS_FN_<n>()`.

use vstd::prelude::*;

use crate::error::{LotusError, LotusErrorView};
use crate::input::{text_piece, InputText};
use crate::number::{
    number_pieces, number_pieces_exec, snum32_text, snum32_text_exec, Number, PieceView,
};
use crate::text::{all_ascii, alphanumeric, char_is_alphanumeric, column_letters, is_ascii_alphanumeric, cp437_char, cp437_text, decimal, push_char, push_decimal, push_column_letters};

verus! {

/// Position of a formula's cell: relative references are rendered against it.
#[derive(Debug, Clone, Copy)]
pub struct FormulaOrigin {
    pub sheet: u8,
    pub row: u16,
    pub column: u8,
}

/// How an operator or function token takes its operands.
#[derive(Debug, Clone, Copy, PartialEq, Eq, Structural)]
pub enum Arity {
    /// Binary infix operator.
    Op,
    /// Function with a fixed number of arguments.
    FuncFix(u8),
    /// Function whose argument count follows the token.
    FuncVar,
    /// Unary minus.
    Neg,
    /// No operation (unary plus).
    Nop,
    /// Token with no spreadsheet equivalent.
    NotImpl,
}

/// Name of an operator or function; `infix` is set for infix operators.
#[derive(Debug, Clone, Copy)]
pub struct OpInfo {
    pub name: &'static str,
    pub infix: Option<&'static str>,
}

/// Operator/function table of WK3 formula tokens 14 and up.
pub open spec fn op_table(index: u8) -> (Arity, OpInfo) {
    match index {
        14 => (Arity::Neg, OpInfo { name: "-", infix: None }),
        15 => (Arity::Op, OpInfo { name: "+", infix: Some("+") }),
        16 => (Arity::Op, OpInfo { name: "-", infix: Some("-") }),
        17 => (Arity::Op, OpInfo { name: "*", infix: Some("*") }),
        18 => (Arity::Op, OpInfo { name: "/", infix: Some("/") }),
        19 => (Arity::Op, OpInfo { name: "^", infix: Some("^") }),
        20 => (Arity::Op, OpInfo { name: "=", infix: Some("=") }),
        21 => (Arity::Op, OpInfo { name: "<>", infix: Some("<>") }),
        22 => (Arity::Op, OpInfo { name: "<=", infix: Some("<=") }),
        23 => (Arity::Op, OpInfo { name: ">=", infix: Some(">=") }),
        24 => (Arity::Op, OpInfo { name: "<", infix: Some("<") }),
        25 => (Arity::Op, OpInfo { name: ">", infix: Some(">") }),
        26 => (Arity::FuncFix(2), OpInfo { name: "AND", infix: None }),
        27 => (Arity::FuncFix(2), OpInfo { name: "OR", infix: None }),
        28 => (Arity::FuncFix(1), OpInfo { name: "NOT", infix: None }),
        29 => (Arity::Nop, OpInfo { name: "+", infix: None }),
        30 => (Arity::Op, OpInfo { name: "&", infix: Some("&") }),
        31 => (Arity::FuncFix(0), OpInfo { name: "NA", infix: None }),
        32 => (Arity::FuncFix(0), OpInfo { name: "NA", infix: None }),
        33 => (Arity::FuncFix(1), OpInfo { name: "ABS", infix: None }),
        34 => (Arity::FuncFix(1), OpInfo { name: "INT", infix: None }),
        35 => (Arity::FuncFix(1), OpInfo { name: "SQRT", infix: None }),
        36 => (Arity::FuncFix(1), OpInfo { name: "LOG10", infix: None }),
        37 => (Arity::FuncFix(1), OpInfo { name: "LN", infix: None }),
        38 => (Arity::FuncFix(0), OpInfo { name: "PI", infix: None }),
        39 => (Arity::FuncFix(1), OpInfo { name: "SIN", infix: None }),
        40 => (Arity::FuncFix(1), OpInfo { name: "COS", infix: None }),
        41 => (Arity::FuncFix(1), OpInfo { name: "TAN", infix: None }),
        42 => (Arity::FuncFix(2), OpInfo { name: "ATAN2", infix: None }),
        43 => (Arity::FuncFix(1), OpInfo { name: "ATAN", infix: None }),
        44 => (Arity::FuncFix(1), OpInfo { name: "ASIN", infix: None }),
        45 => (Arity::FuncFix(1), OpInfo { name: "ACOS", infix: None }),
        46 => (Arity::FuncFix(1), OpInfo { name: "EXP", infix: None }),
        47 => (Arity::FuncFix(2), OpInfo { name: "MOD", infix: None }),
        48 => (Arity::FuncVar, OpInfo { name: "CHOOSE", infix: None }),
        49 => (Arity::FuncFix(1), OpInfo { name: "ISNA", infix: None }),
        50 => (Arity::FuncFix(1), OpInfo { name: "ISERROR", infix: None }),
        51 => (Arity::FuncFix(0), OpInfo { name: "FALSE", infix: None }),
        52 => (Arity::FuncFix(0), OpInfo { name: "TRUE", infix: None }),
        53 => (Arity::FuncFix(0), OpInfo { name: "RAND", infix: None }),
        54 => (Arity::FuncFix(3), OpInfo { name: "DATE", infix: None }),
        55 => (Arity::FuncFix(0), OpInfo { name: "TODAY", infix: None }),
        56 => (Arity::FuncFix(3), OpInfo { name: "_LOTUS_PMT", infix: None }),
        57 => (Arity::FuncFix(3), OpInfo { name: "_LOTUS_PV", infix: None }),
        58 => (Arity::FuncFix(3), OpInfo { name: "_LOTUS_FV", infix: None }),
        59 => (Arity::FuncFix(3), OpInfo { name: "IF", infix: None }),
        60 => (Arity::FuncFix(1), OpInfo { name: "DAY", infix: None }),
        61 => (Arity::FuncFix(1), OpInfo { name: "MONTH", infix: None }),
        62 => (Arity::FuncFix(1), OpInfo { name: "YEAR", infix: None }),
        63 => (Arity::FuncFix(2), OpInfo { name: "ROUND", infix: None }),
        64 => (Arity::FuncFix(3), OpInfo { name: "TIME", infix: None }),
        65 => (Arity::FuncFix(1), OpInfo { name: "HOUR", infix: None }),
        66 => (Arity::FuncFix(1), OpInfo { name: "MINUTE", infix: None }),
        67 => (Arity::FuncFix(1), OpInfo { name: "SECOND", infix: None }),
        68 => (Arity::FuncFix(1), OpInfo { name: "ISNUMBER", infix: None }),
        69 => (Arity::FuncFix(1), OpInfo { name: "ISTEXT", infix: None }),
        70 => (Arity::FuncFix(1), OpInfo { name: "LEN", infix: None }),
        71 => (Arity::FuncFix(1), OpInfo { name: "VALUE", infix: None }),
        72 => (Arity::FuncFix(2), OpInfo { name: "FIXED", infix: None }),
        73 => (Arity::FuncFix(3), OpInfo { name: "MID", infix: None }),
        74 => (Arity::FuncFix(1), OpInfo { name: "CHAR", infix: None }),
        75 => (Arity::FuncFix(1), OpInfo { name: "CODE", infix: None }),
        76 => (Arity::FuncFix(3), OpInfo { name: "FIND", infix: None }),
        77 => (Arity::FuncFix(1), OpInfo { name: "DATEVALUE", infix: None }),
        78 => (Arity::FuncFix(1), OpInfo { name: "TIMEVALUE", infix: None }),
        79 => (Arity::FuncFix(1), OpInfo { name: "_LOTUS_CELLPOINTER", infix: None }),
        80 => (Arity::FuncVar, OpInfo { name: "SUM", infix: None }),
        81 => (Arity::FuncVar, OpInfo { name: "AVERAGE", infix: None }),
        82 => (Arity::FuncVar, OpInfo { name: "COUNTA", infix: None }),
        83 => (Arity::FuncVar, OpInfo { name: "MIN", infix: None }),
        84 => (Arity::FuncVar, OpInfo { name: "MAX", infix: None }),
        85 => (Arity::FuncFix(3), OpInfo { name: "VLOOKUP", infix: None }),
        86 => (Arity::FuncFix(2), OpInfo { name: "NPV", infix: None }),
        87 => (Arity::FuncVar, OpInfo { name: "VAR", infix: None }),
        88 => (Arity::FuncVar, OpInfo { name: "STDEV", infix: None }),
        89 => (Arity::FuncFix(2), OpInfo { name: "IRR", infix: None }),
        90 => (Arity::FuncFix(3), OpInfo { name: "HLOOKUP", infix: None }),
        91 => (Arity::FuncVar, OpInfo { name: "DSUM", infix: None }),
        92 => (Arity::FuncVar, OpInfo { name: "DAVERAGE", infix: None }),
        93 => (Arity::FuncVar, OpInfo { name: "DCOUNTA", infix: None }),
        94 => (Arity::FuncVar, OpInfo { name: "DMIN", infix: None }),
        95 => (Arity::FuncVar, OpInfo { name: "DMAX", infix: None }),
        96 => (Arity::FuncVar, OpInfo { name: "DVAR", infix: None }),
        97 => (Arity::FuncVar, OpInfo { name: "DSTDEV", infix: None }),
        98 => (Arity::FuncVar, OpInfo { name: "INDEX", infix: None }),
        99 => (Arity::FuncFix(1), OpInfo { name: "COLUMNS", infix: None }),
        100 => (Arity::FuncFix(1), OpInfo { name: "ROWS", infix: None }),
        101 => (Arity::FuncFix(2), OpInfo { name: "REPT", infix: None }),
        102 => (Arity::FuncFix(1), OpInfo { name: "UPPER", infix: None }),
        103 => (Arity::FuncFix(1), OpInfo { name: "LOWER", infix: None }),
        104 => (Arity::FuncFix(2), OpInfo { name: "LEFT", infix: None }),
        105 => (Arity::FuncFix(2), OpInfo { name: "RIGHT", infix: None }),
        106 => (Arity::FuncFix(4), OpInfo { name: "REPLACE", infix: None }),
        107 => (Arity::FuncFix(1), OpInfo { name: "PROPER", infix: None }),
        108 => (Arity::FuncFix(2), OpInfo { name: "CELL", infix: None }),
        109 => (Arity::FuncFix(1), OpInfo { name: "TRIM", infix: None }),
        110 => (Arity::FuncFix(1), OpInfo { name: "CLEAN", infix: None }),
        111 => (Arity::FuncFix(1), OpInfo { name: "T", infix: None }),
        112 => (Arity::FuncFix(1), OpInfo { name: "N", infix: None }),
        113 => (Arity::FuncFix(2), OpInfo { name: "EXACT", infix: None }),
        115 => (Arity::FuncFix(1), OpInfo { name: "INDIRECT", infix: None }),
        116 => (Arity::FuncFix(3), OpInfo { name: "RATE", infix: None }),
        117 => (Arity::FuncFix(3), OpInfo { name: "_LOTUS_TERM", infix: None }),
        118 => (Arity::FuncFix(3), OpInfo { name: "_LOTUS_CTERM", infix: None }),
        119 => (Arity::FuncFix(3), OpInfo { name: "SLN", infix: None }),
        120 => (Arity::FuncFix(4), OpInfo { name: "SYD", infix: None }),
        121 => (Arity::FuncFix(4), OpInfo { name: "DDB", infix: None }),
        125 => (Arity::FuncVar, OpInfo { name: "SUMPRODUCT", infix: None }),
        137 => (Arity::FuncFix(2), OpInfo { name: "DAYS360", infix: None }),
        141 => (Arity::FuncFix(1), OpInfo { name: "WEEKDAY", infix: None }),
        142 => (Arity::FuncFix(3), OpInfo { name: "DATEDIF", infix: None }),
        143 => (Arity::FuncVar, OpInfo { name: "RANK", infix: None }),
        153 => (Arity::FuncVar, OpInfo { name: "AVERAGE", infix: None }),
        154 => (Arity::FuncVar, OpInfo { name: "COUNT", infix: None }),
        155 => (Arity::FuncVar, OpInfo { name: "MAX", infix: None }),
        156 => (Arity::FuncVar, OpInfo { name: "MIN", infix: None }),
        157 => (Arity::FuncVar, OpInfo { name: "STDEVP", infix: None }),
        158 => (Arity::FuncVar, OpInfo { name: "VARP", infix: None }),
        159 => (Arity::FuncVar, OpInfo { name: "STDEV", infix: None }),
        160 => (Arity::FuncVar, OpInfo { name: "VAR", infix: None }),
        166 => (Arity::FuncFix(2), OpInfo { name: "DAYS360", infix: None }),
        _ => (Arity::NotImpl, OpInfo { name: "", infix: None }),
    }
}

/// Operator/function metadata of a WK3 formula token.
pub fn op_for(index: u8) -> (r: (Arity, OpInfo))
    ensures
        r == op_table(index),
{
    match index {
        14 => (Arity::Neg, OpInfo { name: "-", infix: None }),
        15 => (Arity::Op, OpInfo { name: "+", infix: Some("+") }),
        16 => (Arity::Op, OpInfo { name: "-", infix: Some("-") }),
        17 => (Arity::Op, OpInfo { name: "*", infix: Some("*") }),
        18 => (Arity::Op, OpInfo { name: "/", infix: Some("/") }),
        19 => (Arity::Op, OpInfo { name: "^", infix: Some("^") }),
        20 => (Arity::Op, OpInfo { name: "=", infix: Some("=") }),
        21 => (Arity::Op, OpInfo { name: "<>", infix: Some("<>") }),
        22 => (Arity::Op, OpInfo { name: "<=", infix: Some("<=") }),
        23 => (Arity::Op, OpInfo { name: ">=", infix: Some(">=") }),
        24 => (Arity::Op, OpInfo { name: "<", infix: Some("<") }),
        25 => (Arity::Op, OpInfo { name: ">", infix: Some(">") }),
        26 => (Arity::FuncFix(2), OpInfo { name: "AND", infix: None }),
        27 => (Arity::FuncFix(2), OpInfo { name: "OR", infix: None }),
        28 => (Arity::FuncFix(1), OpInfo { name: "NOT", infix: None }),
        29 => (Arity::Nop, OpInfo { name: "+", infix: None }),
        30 => (Arity::Op, OpInfo { name: "&", infix: Some("&") }),
        31 => (Arity::FuncFix(0), OpInfo { name: "NA", infix: None }),
        32 => (Arity::FuncFix(0), OpInfo { name: "NA", infix: None }),
        33 => (Arity::FuncFix(1), OpInfo { name: "ABS", infix: None }),
        34 => (Arity::FuncFix(1), OpInfo { name: "INT", infix: None }),
        35 => (Arity::FuncFix(1), OpInfo { name: "SQRT", infix: None }),
        36 => (Arity::FuncFix(1), OpInfo { name: "LOG10", infix: None }),
        37 => (Arity::FuncFix(1), OpInfo { name: "LN", infix: None }),
        38 => (Arity::FuncFix(0), OpInfo { name: "PI", infix: None }),
        39 => (Arity::FuncFix(1), OpInfo { name: "SIN", infix: None }),
        40 => (Arity::FuncFix(1), OpInfo { name: "COS", infix: None }),
        41 => (Arity::FuncFix(1), OpInfo { name: "TAN", infix: None }),
        42 => (Arity::FuncFix(2), OpInfo { name: "ATAN2", infix: None }),
        43 => (Arity::FuncFix(1), OpInfo { name: "ATAN", infix: None }),
        44 => (Arity::FuncFix(1), OpInfo { name: "ASIN", infix: None }),
        45 => (Arity::FuncFix(1), OpInfo { name: "ACOS", infix: None }),
        46 => (Arity::FuncFix(1), OpInfo { name: "EXP", infix: None }),
        47 => (Arity::FuncFix(2), OpInfo { name: "MOD", infix: None }),
        48 => (Arity::FuncVar, OpInfo { name: "CHOOSE", infix: None }),
        49 => (Arity::FuncFix(1), OpInfo { name: "ISNA", infix: None }),
        50 => (Arity::FuncFix(1), OpInfo { name: "ISERROR", infix: None }),
        51 => (Arity::FuncFix(0), OpInfo { name: "FALSE", infix: None }),
        52 => (Arity::FuncFix(0), OpInfo { name: "TRUE", infix: None }),
        53 => (Arity::FuncFix(0), OpInfo { name: "RAND", infix: None }),
        54 => (Arity::FuncFix(3), OpInfo { name: "DATE", infix: None }),
        55 => (Arity::FuncFix(0), OpInfo { name: "TODAY", infix: None }),
        56 => (Arity::FuncFix(3), OpInfo { name: "_LOTUS_PMT", infix: None }),
        57 => (Arity::FuncFix(3), OpInfo { name: "_LOTUS_PV", infix: None }),
        58 => (Arity::FuncFix(3), OpInfo { name: "_LOTUS_FV", infix: None }),
        59 => (Arity::FuncFix(3), OpInfo { name: "IF", infix: None }),
        60 => (Arity::FuncFix(1), OpInfo { name: "DAY", infix: None }),
        61 => (Arity::FuncFix(1), OpInfo { name: "MONTH", infix: None }),
        62 => (Arity::FuncFix(1), OpInfo { name: "YEAR", infix: None }),
        63 => (Arity::FuncFix(2), OpInfo { name: "ROUND", infix: None }),
        64 => (Arity::FuncFix(3), OpInfo { name: "TIME", infix: None }),
        65 => (Arity::FuncFix(1), OpInfo { name: "HOUR", infix: None }),
        66 => (Arity::FuncFix(1), OpInfo { name: "MINUTE", infix: None }),
        67 => (Arity::FuncFix(1), OpInfo { name: "SECOND", infix: None }),
        68 => (Arity::FuncFix(1), OpInfo { name: "ISNUMBER", infix: None }),
        69 => (Arity::FuncFix(1), OpInfo { name: "ISTEXT", infix: None }),
        70 => (Arity::FuncFix(1), OpInfo { name: "LEN", infix: None }),
        71 => (Arity::FuncFix(1), OpInfo { name: "VALUE", infix: None }),
        72 => (Arity::FuncFix(2), OpInfo { name: "FIXED", infix: None }),
        73 => (Arity::FuncFix(3), OpInfo { name: "MID", infix: None }),
        74 => (Arity::FuncFix(1), OpInfo { name: "CHAR", infix: None }),
        75 => (Arity::FuncFix(1), OpInfo { name: "CODE", infix: None }),
        76 => (Arity::FuncFix(3), OpInfo { name: "FIND", infix: None }),
        77 => (Arity::FuncFix(1), OpInfo { name: "DATEVALUE", infix: None }),
        78 => (Arity::FuncFix(1), OpInfo { name: "TIMEVALUE", infix: None }),
        79 => (Arity::FuncFix(1), OpInfo { name: "_LOTUS_CELLPOINTER", infix: None }),
        80 => (Arity::FuncVar, OpInfo { name: "SUM", infix: None }),
        81 => (Arity::FuncVar, OpInfo { name: "AVERAGE", infix: None }),
        82 => (Arity::FuncVar, OpInfo { name: "COUNTA", infix: None }),
        83 => (Arity::FuncVar, OpInfo { name: "MIN", infix: None }),
        84 => (Arity::FuncVar, OpInfo { name: "MAX", infix: None }),
        85 => (Arity::FuncFix(3), OpInfo { name: "VLOOKUP", infix: None }),
        86 => (Arity::FuncFix(2), OpInfo { name: "NPV", infix: None }),
        87 => (Arity::FuncVar, OpInfo { name: "VAR", infix: None }),
        88 => (Arity::FuncVar, OpInfo { name: "STDEV", infix: None }),
        89 => (Arity::FuncFix(2), OpInfo { name: "IRR", infix: None }),
        90 => (Arity::FuncFix(3), OpInfo { name: "HLOOKUP", infix: None }),
        91 => (Arity::FuncVar, OpInfo { name: "DSUM", infix: None }),
        92 => (Arity::FuncVar, OpInfo { name: "DAVERAGE", infix: None }),
        93 => (Arity::FuncVar, OpInfo { name: "DCOUNTA", infix: None }),
        94 => (Arity::FuncVar, OpInfo { name: "DMIN", infix: None }),
        95 => (Arity::FuncVar, OpInfo { name: "DMAX", infix: None }),
        96 => (Arity::FuncVar, OpInfo { name: "DVAR", infix: None }),
        97 => (Arity::FuncVar, OpInfo { name: "DSTDEV", infix: None }),
        98 => (Arity::FuncVar, OpInfo { name: "INDEX", infix: None }),
        99 => (Arity::FuncFix(1), OpInfo { name: "COLUMNS", infix: None }),
        100 => (Arity::FuncFix(1), OpInfo { name: "ROWS", infix: None }),
        101 => (Arity::FuncFix(2), OpInfo { name: "REPT", infix: None }),
        102 => (Arity::FuncFix(1), OpInfo { name: "UPPER", infix: None }),
        103 => (Arity::FuncFix(1), OpInfo { name: "LOWER", infix: None }),
        104 => (Arity::FuncFix(2), OpInfo { name: "LEFT", infix: None }),
        105 => (Arity::FuncFix(2), OpInfo { name: "RIGHT", infix: None }),
        106 => (Arity::FuncFix(4), OpInfo { name: "REPLACE", infix: None }),
        107 => (Arity::FuncFix(1), OpInfo { name: "PROPER", infix: None }),
        108 => (Arity::FuncFix(2), OpInfo { name: "CELL", infix: None }),
        109 => (Arity::FuncFix(1), OpInfo { name: "TRIM", infix: None }),
        110 => (Arity::FuncFix(1), OpInfo { name: "CLEAN", infix: None }),
        111 => (Arity::FuncFix(1), OpInfo { name: "T", infix: None }),
        112 => (Arity::FuncFix(1), OpInfo { name: "N", infix: None }),
        113 => (Arity::FuncFix(2), OpInfo { name: "EXACT", infix: None }),
        115 => (Arity::FuncFix(1), OpInfo { name: "INDIRECT", infix: None }),
        116 => (Arity::FuncFix(3), OpInfo { name: "RATE", infix: None }),
        117 => (Arity::FuncFix(3), OpInfo { name: "_LOTUS_TERM", infix: None }),
        118 => (Arity::FuncFix(3), OpInfo { name: "_LOTUS_CTERM", infix: None }),
        119 => (Arity::FuncFix(3), OpInfo { name: "SLN", infix: None }),
        120 => (Arity::FuncFix(4), OpInfo { name: "SYD", infix: None }),
        121 => (Arity::FuncFix(4), OpInfo { name: "DDB", infix: None }),
        125 => (Arity::FuncVar, OpInfo { name: "SUMPRODUCT", infix: None }),
        137 => (Arity::FuncFix(2), OpInfo { name: "DAYS360", infix: None }),
        141 => (Arity::FuncFix(1), OpInfo { name: "WEEKDAY", infix: None }),
        142 => (Arity::FuncFix(3), OpInfo { name: "DATEDIF", infix: None }),
        143 => (Arity::FuncVar, OpInfo { name: "RANK", infix: None }),
        153 => (Arity::FuncVar, OpInfo { name: "AVERAGE", infix: None }),
        154 => (Arity::FuncVar, OpInfo { name: "COUNT", infix: None }),
        155 => (Arity::FuncVar, OpInfo { name: "MAX", infix: None }),
        156 => (Arity::FuncVar, OpInfo { name: "MIN", infix: None }),
        157 => (Arity::FuncVar, OpInfo { name: "STDEVP", infix: None }),
        158 => (Arity::FuncVar, OpInfo { name: "VARP", infix: None }),
        159 => (Arity::FuncVar, OpInfo { name: "STDEV", infix: None }),
        160 => (Arity::FuncVar, OpInfo { name: "VAR", infix: None }),
        166 => (Arity::FuncFix(2), OpInfo { name: "DAYS360", infix: None }),
        _ => (Arity::NotImpl, OpInfo { name: "", infix: None }),
    }
}

/// Little-endian `u16` at `p`.
pub open spec fn u16_at(b: Seq<u8>, p: int) -> u16 {
    (b[p] + 256 * b[p + 1]) as u16
}

/// Little-endian `u32` at `p`.
pub open spec fn u32_at(b: Seq<u8>, p: int) -> u32 {
    (u16_at(b, p) + 65536 * u16_at(b, p + 2)) as u32
}

/// Little-endian `u64` at `p`.
pub open spec fn u64_at(b: Seq<u8>, p: int) -> u64 {
    (u32_at(b, p) + 0x1_0000_0000 * u32_at(b, p + 4)) as u64
}

/// End of the NUL-terminated string starting at `q`: the first NUL at or
/// after `q`, or the end of the bytes.
pub open spec fn cstr_end(b: Seq<u8>, q: nat) -> nat
    decreases b.len() - q,
{
    if q >= b.len() {
        q
    } else if b[q as int] == 0 {
        q
    } else {
        cstr_end(b, q + 1)
    }
}

pub proof fn lemma_cstr_end_bounds(b: Seq<u8>, q: nat)
    requires
        q <= b.len(),
    ensures
        q <= cstr_end(b, q) <= b.len(),
    decreases b.len() - q,
{
    if q < b.len() && b[q as int] != 0 {
        lemma_cstr_end_bounds(b, q + 1);
    }
}

/// Position after the NUL-terminated string starting at `q` (the
/// terminator is consumed when present).
pub open spec fn after_cstr(b: Seq<u8>, q: nat) -> nat {
    let e = cstr_end(b, q);
    if e < b.len() {
        e + 1
    } else {
        e
    }
}

/// The characters of the NUL-terminated string starting at `q`.
pub open spec fn cstr_text(b: Seq<u8>, q: nat) -> Seq<char> {
    cp437_text(b.subrange(q as int, cstr_end(b, q) as int))
}

pub open spec fn msg_u8() -> Seq<char> {
    "formula token cursor underflow"@
}

pub open spec fn msg_u16() -> Seq<char> {
    "formula u16 underflow"@
}

pub open spec fn msg_u32() -> Seq<char> {
    "formula u32 underflow"@
}

pub open spec fn msg_f64() -> Seq<char> {
    "formula f64 underflow"@
}

pub open spec fn msg_skip() -> Seq<char> {
    "formula skip past end"@
}

/// A byte cursor over formula tokens.
pub struct Cursor<'a> {
    pub buf: &'a [u8],
    pub pos: usize,
}

impl<'a> Cursor<'a> {
    pub fn new(buf: &'a [u8]) -> (c: Cursor<'a>)
        ensures
            c.buf == buf,
            c.pos == 0,
    {
        Cursor { buf, pos: 0 }
    }

    pub fn position(&self) -> (p: usize)
        ensures
            p == self.pos,
    {
        self.pos
    }

    pub fn read_u8(&mut self) -> (r: Result<u8, LotusError>)
        ensures
            final(self).buf == old(self).buf,
            old(self).pos <= old(self).buf@.len() ==> final(self).pos <= final(self).buf@.len(),
            old(self).pos < old(self).buf@.len() ==> (r matches Ok(v) && v == old(self).buf@[old(
                self,
            ).pos as int] && final(self).pos == old(self).pos + 1),
            old(self).pos >= old(self).buf@.len() ==> (r matches Err(e) && e@ == LotusErrorView::IO(
                msg_u8(),
            ) && final(self).pos == old(self).pos),
    {
        if self.pos >= self.buf.len() {
            return Err(LotusError::IO(String::from_str("formula token cursor underflow")));
        }
        let b = self.buf[self.pos];
        self.pos += 1;
        Ok(b)
    }

    pub fn read_u16(&mut self) -> (r: Result<u16, LotusError>)
        ensures
            final(self).buf == old(self).buf,
            old(self).pos <= old(self).buf@.len() ==> final(self).pos <= final(self).buf@.len(),
            old(self).pos + 2 <= old(self).buf@.len() ==> (r matches Ok(v) && v == u16_at(
                old(self).buf@,
                old(self).pos as int,
            ) && final(self).pos == old(self).pos + 2),
            old(self).pos + 2 > old(self).buf@.len() ==> (r matches Err(e) && e@
                == LotusErrorView::IO(msg_u16()) && final(self).pos == old(self).pos),
    {
        if self.buf.len() < 2 || self.pos > self.buf.len() - 2 {
            return Err(LotusError::IO(String::from_str("formula u16 underflow")));
        }
        let v = self.buf[self.pos] as u16 + 256 * (self.buf[self.pos + 1] as u16);
        self.pos += 2;
        Ok(v)
    }

    pub fn read_u32(&mut self) -> (r: Result<u32, LotusError>)
        ensures
            final(self).buf == old(self).buf,
            old(self).pos <= old(self).buf@.len() ==> final(self).pos <= final(self).buf@.len(),
            old(self).pos + 4 <= old(self).buf@.len() ==> (r matches Ok(v) && v == u32_at(
                old(self).buf@,
                old(self).pos as int,
            ) && final(self).pos == old(self).pos + 4),
            old(self).pos + 4 > old(self).buf@.len() ==> (r matches Err(e) && e@
                == LotusErrorView::IO(msg_u32()) && final(self).pos == old(self).pos),
    {
        if self.buf.len() < 4 || self.pos > self.buf.len() - 4 {
            return Err(LotusError::IO(String::from_str("formula u32 underflow")));
        }
        let p = self.pos;
        let lo = self.buf[p] as u32 + 256 * (self.buf[p + 1] as u32);
        let hi = self.buf[p + 2] as u32 + 256 * (self.buf[p + 3] as u32);
        self.pos += 4;
        Ok(lo + 65536 * hi)
    }

    /// Reads the 8 bytes of an IEEE double, as its bit pattern.
    pub fn read_double_bits(&mut self) -> (r: Result<u64, LotusError>)
        ensures
            final(self).buf == old(self).buf,
            old(self).pos <= old(self).buf@.len() ==> final(self).pos <= final(self).buf@.len(),
            old(self).pos + 8 <= old(self).buf@.len() ==> (r matches Ok(v) && v == u64_at(
                old(self).buf@,
                old(self).pos as int,
            ) && final(self).pos == old(self).pos + 8),
            old(self).pos + 8 > old(self).buf@.len() ==> (r matches Err(e) && e@
                == LotusErrorView::IO(msg_f64()) && final(self).pos == old(self).pos),
    {
        if self.buf.len() < 8 || self.pos > self.buf.len() - 8 {
            return Err(LotusError::IO(String::from_str("formula f64 underflow")));
        }
        let p = self.pos;
        let w0 = self.buf[p] as u64 + 256 * (self.buf[p + 1] as u64);
        let w1 = self.buf[p + 2] as u64 + 256 * (self.buf[p + 3] as u64);
        let w2 = self.buf[p + 4] as u64 + 256 * (self.buf[p + 5] as u64);
        let w3 = self.buf[p + 6] as u64 + 256 * (self.buf[p + 7] as u64);
        let lo = w0 + 65536 * w1;
        let hi = w2 + 65536 * w3;
        self.pos += 8;
        Ok(lo + 0x1_0000_0000 * hi)
    }

    /// Reads a NUL-terminated CP437 string; the terminator, when present,
    /// is consumed.
    pub fn read_cstr(&mut self) -> (s: String)
        requires
            old(self).pos <= old(self).buf@.len(),
        ensures
            final(self).buf == old(self).buf,
            s@ == cstr_text(old(self).buf@, old(self).pos as nat),
            final(self).pos == after_cstr(old(self).buf@, old(self).pos as nat),
            final(self).pos <= final(self).buf@.len(),
    {
        let start = self.pos;
        let ghost b = self.buf@;
        let mut s = String::new();
        while self.pos < self.buf.len() && self.buf[self.pos] != 0
            invariant
                self.buf@ == b,
                start <= self.pos <= b.len(),
                cstr_end(b, start as nat) == cstr_end(b, self.pos as nat),
                s@ == cp437_text(b.subrange(start as int, self.pos as int)),
            decreases b.len() - self.pos,
        {
            push_char(&mut s, cp437_char(self.buf[self.pos]));
            self.pos += 1;
            assert(b.subrange(start as int, self.pos as int) == b.subrange(
                start as int,
                self.pos - 1,
            ).push(b[self.pos - 1]));
        }
        if self.pos < self.buf.len() {
            self.pos += 1;
        }
        s
    }

    pub fn skip(&mut self, n: usize) -> (r: Result<(), LotusError>)
        ensures
            final(self).buf == old(self).buf,
            old(self).pos <= old(self).buf@.len() ==> final(self).pos <= final(self).buf@.len(),
            old(self).pos + n <= old(self).buf@.len() ==> r is Ok && final(self).pos == old(
                self,
            ).pos + n,
            old(self).pos + n > old(self).buf@.len() ==> (r matches Err(e) && e@
                == LotusErrorView::IO(msg_skip()) && final(self).pos == old(self).pos),
    {
        if self.pos > self.buf.len() || n > self.buf.len() - self.pos {
            return Err(LotusError::IO(String::from_str("formula skip past end")));
        }
        self.pos += n;
        Ok(())
    }
}


/// One token of a formula stream.
pub enum Token {
    /// FT_Const10Float: an IEEE double (bit pattern).
    Const(u64),
    /// FT_Cref: a cell reference.
    Cref { rel: u8, row: u16, tab: u8, col: u8 },
    /// FT_Rref: a range reference.
    Rref { rel: u8, row1: u16, tab1: u8, col1: u8, row2: u16, tab2: u8, col2: u8 },
    /// FT_Return: end of the formula.
    Return,
    /// FT_Braces: parenthesise the top operand.
    Braces,
    /// FT_Snum: a 32-bit packed number.
    Snum(u32),
    /// FT_ConstString.
    Str(Seq<char>),
    /// FT_Nrref: a relative named range.
    NameRel(Seq<char>),
    /// FT_Absnref: an absolute named range.
    NameAbs(Seq<char>),
    /// FT_Erref.
    ErrRef,
    /// FT_Ecref.
    ErrCref,
    /// FT_Econstant.
    ErrConst,
    /// Tokens 12 and 13.
    Reserved,
    /// Tokens 14 to 30: operators.
    Op(u8),
    /// Tokens 31 and up: functions, with their argument count.
    Func(u8, u8),
}

/// The token that starts at `p`, and the position after it; or the message
/// of the read that ran past the end of the bytes.
pub open spec fn next_token(b: Seq<u8>, p: nat) -> Result<(Token, nat), Seq<char>> {
    if p >= b.len() {
        Err(msg_u8())
    } else {
        let op = b[p as int];
        let q = p + 1;
        let i = q as int;
        let n = b.len() - q;
        if op == 0 {
            if n < 8 {
                Err(msg_f64())
            } else {
                Ok((Token::Const(u64_at(b, i)), (q + 8) as nat))
            }
        } else if op == 1 {
            if n < 1 {
                Err(msg_u8())
            } else if n < 3 {
                Err(msg_u16())
            } else if n < 5 {
                Err(msg_u8())
            } else {
                Ok((
                    Token::Cref {
                        rel: b[i],
                        row: u16_at(b, i + 1),
                        tab: b[i + 3],
                        col: b[i + 4],
                    },
                    (q + 5) as nat,
                ))
            }
        } else if op == 2 {
            if n < 1 {
                Err(msg_u8())
            } else if n < 3 {
                Err(msg_u16())
            } else if n < 5 {
                Err(msg_u8())
            } else if n < 7 {
                Err(msg_u16())
            } else if n < 9 {
                Err(msg_u8())
            } else {
                Ok((
                    Token::Rref {
                        rel: b[i],
                        row1: u16_at(b, i + 1),
                        tab1: b[i + 3],
                        col1: b[i + 4],
                        row2: u16_at(b, i + 5),
                        tab2: b[i + 7],
                        col2: b[i + 8],
                    },
                    (q + 9) as nat,
                ))
            }
        } else if op == 3 {
            Ok((Token::Return, q))
        } else if op == 4 {
            Ok((Token::Braces, q))
        } else if op == 5 {
            if n < 4 {
                Err(msg_u32())
            } else {
                Ok((Token::Snum(u32_at(b, i)), (q + 4) as nat))
            }
        } else if op == 6 {
            Ok((Token::Str(cstr_text(b, q)), after_cstr(b, q)))
        } else if op == 7 {
            Ok((Token::NameRel(cstr_text(b, q)), after_cstr(b, q)))
        } else if op == 8 {
            Ok((Token::NameAbs(cstr_text(b, q)), after_cstr(b, q)))
        } else if op == 9 {
            if n < 4 {
                Err(msg_skip())
            } else {
                Ok((Token::ErrRef, (q + 4) as nat))
            }
        } else if op == 10 {
            if n < 5 {
                Err(msg_skip())
            } else {
                Ok((Token::ErrCref, (q + 5) as nat))
            }
        } else if op == 11 {
            if n < 10 {
                Err(msg_skip())
            } else {
                Ok((Token::ErrConst, (q + 10) as nat))
            }
        } else if op == 12 || op == 13 {
            Ok((Token::Reserved, q))
        } else if op <= 30 {
            Ok((Token::Op(op), q))
        } else {
            match op_table(op).0 {
                Arity::FuncVar => if n < 1 {
                    Err(msg_u8())
                } else {
                    Ok((Token::Func(op, b[i]), (q + 1) as nat))
                },
                Arity::FuncFix(c) => Ok((Token::Func(op, c), q)),
                _ => Ok((Token::Func(op, 0), q)),
            }
        }
    }
}

/// Every token moves forward and stays within the bytes.
pub proof fn lemma_next_token_advances(b: Seq<u8>, p: nat)
    ensures
        next_token(b, p) matches Ok((_, q)) ==> p < q <= b.len(),
{
    if p < b.len() {
        lemma_cstr_end_bounds(b, p + 1);
    }
}

/// Executable form of [`Token`].
pub enum Tok {
    Const(u64),
    Cref { rel: u8, row: u16, tab: u8, col: u8 },
    Rref { rel: u8, row1: u16, tab1: u8, col1: u8, row2: u16, tab2: u8, col2: u8 },
    Return,
    Braces,
    Snum(u32),
    Str(String),
    NameRel(String),
    NameAbs(String),
    ErrRef,
    ErrCref,
    ErrConst,
    Reserved,
    Op(u8),
    Func(u8, u8),
}

impl View for Tok {
    type V = Token;

    open spec fn view(&self) -> Token {
        match self {
            Tok::Const(v) => Token::Const(*v),
            Tok::Cref { rel, row, tab, col } => Token::Cref {
                rel: *rel,
                row: *row,
                tab: *tab,
                col: *col,
            },
            Tok::Rref { rel, row1, tab1, col1, row2, tab2, col2 } => Token::Rref {
                rel: *rel,
                row1: *row1,
                tab1: *tab1,
                col1: *col1,
                row2: *row2,
                tab2: *tab2,
                col2: *col2,
            },
            Tok::Return => Token::Return,
            Tok::Braces => Token::Braces,
            Tok::Snum(v) => Token::Snum(*v),
            Tok::Str(s) => Token::Str(s@),
            Tok::NameRel(s) => Token::NameRel(s@),
            Tok::NameAbs(s) => Token::NameAbs(s@),
            Tok::ErrRef => Token::ErrRef,
            Tok::ErrCref => Token::ErrCref,
            Tok::ErrConst => Token::ErrConst,
            Tok::Reserved => Token::Reserved,
            Tok::Op(n) => Token::Op(*n),
            Tok::Func(n, c) => Token::Func(*n, *c),
        }
    }
}

/// Reads the next token from the cursor.
fn read_token(r: &mut Cursor) -> (t: Result<Tok, LotusError>)
    requires
        old(r).pos <= old(r).buf@.len(),
    ensures
        final(r).buf == old(r).buf,
        final(r).pos <= final(r).buf@.len(),
        match next_token(old(r).buf@, old(r).pos as nat) {
            Ok((tok, q)) => (t matches Ok(x) && x@ == tok && final(r).pos == q),
            Err(m) => (t matches Err(e) && e@ == LotusErrorView::IO(m)),
        },
{
    let nop = r.read_u8()?;
    if nop == 0 {
        let v = r.read_double_bits()?;
        Ok(Tok::Const(v))
    } else if nop == 1 {
        let rel = r.read_u8()?;
        let row = r.read_u16()?;
        let tab = r.read_u8()?;
        let col = r.read_u8()?;
        Ok(Tok::Cref { rel, row, tab, col })
    } else if nop == 2 {
        let rel = r.read_u8()?;
        let row1 = r.read_u16()?;
        let tab1 = r.read_u8()?;
        let col1 = r.read_u8()?;
        let row2 = r.read_u16()?;
        let tab2 = r.read_u8()?;
        let col2 = r.read_u8()?;
        Ok(Tok::Rref { rel, row1, tab1, col1, row2, tab2, col2 })
    } else if nop == 3 {
        Ok(Tok::Return)
    } else if nop == 4 {
        Ok(Tok::Braces)
    } else if nop == 5 {
        let v = r.read_u32()?;
        Ok(Tok::Snum(v))
    } else if nop == 6 {
        Ok(Tok::Str(r.read_cstr()))
    } else if nop == 7 {
        Ok(Tok::NameRel(r.read_cstr()))
    } else if nop == 8 {
        Ok(Tok::NameAbs(r.read_cstr()))
    } else if nop == 9 {
        r.skip(4)?;
        Ok(Tok::ErrRef)
    } else if nop == 10 {
        r.skip(5)?;
        Ok(Tok::ErrCref)
    } else if nop == 11 {
        r.skip(10)?;
        Ok(Tok::ErrConst)
    } else if nop == 12 || nop == 13 {
        Ok(Tok::Reserved)
    } else if nop <= 30 {
        Ok(Tok::Op(nop))
    } else {
        let (arity, _) = op_for(nop);
        match arity {
            Arity::FuncVar => {
                let count = r.read_u8()?;
                Ok(Tok::Func(nop, count))
            },
            Arity::FuncFix(c) => Ok(Tok::Func(nop, c)),
            _ => Ok(Tok::Func(nop, 0)),
        }
    }
}


/// A character allowed in a defined name (anything else becomes `_`).
pub open spec fn name_char(c: char) -> char {
    if alphanumeric(c) || c == '_' || c == '.' {
        c
    } else {
        '_'
    }
}

pub open spec fn is_ascii_digit(c: char) -> bool {
    '0' <= c <= '9'
}

/// A spreadsheet defined name made from `s`: characters other than letters,
/// digits, `_` and `.` become `_`, a leading digit gets a `_` in front, and
/// the empty name becomes `_`.
pub open spec fn sanitized_name(s: Seq<char>) -> Seq<char> {
    if s.len() == 0 {
        seq!['_']
    } else {
        (if is_ascii_digit(s[0]) {
            seq!['_']
        } else {
            Seq::<char>::empty()
        }) + s.map_values(|c: char| name_char(c))
    }
}

/// [`name_char`] of an ASCII character.
pub open spec fn ascii_name_char(c: char) -> char {
    if is_ascii_alphanumeric(c) || c == '_' || c == '.' {
        c
    } else {
        '_'
    }
}

/// [`sanitized_name`] of an ASCII text.
pub open spec fn sanitized_ascii_name(s: Seq<char>) -> Seq<char> {
    if s.len() == 0 {
        seq!['_']
    } else {
        (if is_ascii_digit(s[0]) {
            seq!['_']
        } else {
            Seq::<char>::empty()
        }) + s.map_values(|c: char| ascii_name_char(c))
    }
}

/// Defined name made from `name` (see [`sanitized_name`]); for an ASCII
/// name it is [`sanitized_ascii_name`].
pub fn sanitize_name(name: &str) -> (out: String)
    ensures
        out@ == sanitized_name(name@),
        all_ascii(name@) ==> out@ == sanitized_ascii_name(name@),
{
    let n = name.unicode_len();
    let mut out = String::new();
    if n == 0 {
        push_char(&mut out, '_');
        return out;
    }
    let first = name.get_char(0);
    if '0' <= first && first <= '9' {
        push_char(&mut out, '_');
    }
    let ghost prefix = out@;
    let mut i: usize = 0;
    while i < n
        invariant
            n == name@.len(),
            i <= n,
            out@ == prefix + name@.take(i as int).map_values(|c: char| name_char(c)),
            forall|j: int| 0 <= j < i && (name@[j] as u32) < 128 ==> name_char(#[trigger] name@[j]) == ascii_name_char(name@[j]),
        decreases n - i,
    {
        let c = name.get_char(i);
        let ok = char_is_alphanumeric(c) || c == '_' || c == '.';
        assert((c as u32) < 128 ==> name_char(c) == ascii_name_char(c));
        push_char(&mut out, if ok { c } else { '_' });
        i += 1;
        assert(name@.take(i as int).map_values(|c: char| name_char(c)) =~= name@.take(
            (i - 1) as int,
        ).map_values(|c: char| name_char(c)).push(name_char(c)));
    }
    assert(name@.take(n as int) =~= name@);
    proof {
        if all_ascii(name@) {
            assert(name@.map_values(|c: char| name_char(c)) =~= name@.map_values(|c: char| ascii_name_char(c))) by {
                assert forall|j: int| 0 <= j < name@.len() implies name_char(name@[j]) == ascii_name_char(name@[j]) by {
                    assert((name@[j] as u32) < 128);
                }
            }
        }
    }
    out
}

/// `s` with each `"` doubled, as inside a formula string literal.
pub open spec fn escape_quotes(s: Seq<char>) -> Seq<char>
    decreases s.len(),
{
    if s.len() == 0 {
        Seq::empty()
    } else {
        escape_quotes(s.drop_last()) + if s.last() == '"' {
            seq!['"', '"']
        } else {
            seq![s.last()]
        }
    }
}

/// Formula string literal for `s`: quoted, inner quotes doubled.
pub open spec fn string_literal(s: Seq<char>) -> Seq<char> {
    seq!['"'] + escape_quotes(s) + seq!['"']
}

fn string_literal_exec(s: &str) -> (out: String)
    ensures
        out@ == string_literal(s@),
{
    let n = s.unicode_len();
    let mut out = String::new();
    push_char(&mut out, '"');
    let mut i: usize = 0;
    while i < n
        invariant
            n == s@.len(),
            i <= n,
            out@ == seq!['"'] + escape_quotes(s@.take(i as int)),
        decreases n - i,
    {
        let c = s.get_char(i);
        if c == '"' {
            push_char(&mut out, '"');
            push_char(&mut out, '"');
        } else {
            push_char(&mut out, c);
        }
        i += 1;
        assert(s@.take(i as int).drop_last() =~= s@.take((i - 1) as int));
    }
    assert(s@.take(n as int) =~= s@);
    push_char(&mut out, '"');
    out
}

/// `s` without one leading `$`.
pub open spec fn strip_dollar(s: Seq<char>) -> Seq<char> {
    if s.len() > 0 && s[0] == '$' {
        s.skip(1)
    } else {
        s
    }
}

fn strip_dollar_exec(s: &str) -> (out: &str)
    ensures
        out@ == strip_dollar(s@),
{
    let n = s.unicode_len();
    if n > 0 && s.get_char(0) == '$' {
        s.substring_char(1, n)
    } else {
        s
    }
}

/// Text of a cell reference. The row, sheet and column are absolute; bit 0
/// of `rel` marks the column relative and bit 1 the row (relative parts get
/// no `$`). A reference to another sheet than the formula's is prefixed
/// with `__LOTUS_TAB<n>__!`.
pub open spec fn cref_text(rel: u8, row: u16, tab: u8, col: u8, o: FormulaOrigin) -> Seq<
    char,
> {
    (if tab != o.sheet {
        "__LOTUS_TAB"@ + decimal(tab as nat) + "__!"@
    } else {
        Seq::<char>::empty()
    }) + (if rel % 2 == 0 {
        seq!['$']
    } else {
        Seq::<char>::empty()
    }) + column_letters(col as nat) + (if (rel / 2) % 2 == 0 {
        seq!['$']
    } else {
        Seq::<char>::empty()
    }) + decimal(row as nat + 1)
}

/// Renders a Lotus cell reference (see [`cref_text`]).
pub fn format_cref(rel: u8, row: u16, tab: u8, col: u8, origin: FormulaOrigin) -> (out: String)
    ensures
        out@ == cref_text(rel, row, tab, col, origin),
{
    let mut out = String::new();
    if tab != origin.sheet {
        out.append("__LOTUS_TAB");
        push_decimal(&mut out, tab as u128);
        out.append("__!");
    }
    if rel % 2 == 0 {
        push_char(&mut out, '$');
    }
    push_column_letters(&mut out, col as u32);
    if (rel / 2) % 2 == 0 {
        push_char(&mut out, '$');
    }
    push_decimal(&mut out, row as u128 + 1);
    out
}


/// The contents of a stack of formula fragments.
pub open spec fn stack_view(s: Seq<InputText>) -> Seq<Seq<PieceView>> {
    s.map_values(|f: InputText| f@)
}

/// Error about the formula of the cell at `o`.
pub open spec fn formula_error(o: FormulaOrigin, reason: Seq<char>) -> LotusErrorView {
    LotusErrorView::Formula {
        sheet: o.sheet as u32,
        row: o.row as i32,
        column: o.column as i32,
        reason,
    }
}

/// Error for an operator `ctx` that finds too few operands.
pub open spec fn underflow(o: FormulaOrigin, ctx: Seq<char>) -> LotusErrorView {
    formula_error(o, "stack underflow at '"@ + ctx + "'"@)
}

/// Arguments separated by commas.
pub open spec fn join_args(args: Seq<Seq<PieceView>>) -> Seq<PieceView>
    decreases args.len(),
{
    if args.len() == 0 {
        Seq::empty()
    } else if args.len() == 1 {
        args[0]
    } else {
        join_args(args.drop_last()) + text_piece(","@) + args.last()
    }
}

/// `name(arg1,arg2,...)`.
pub open spec fn call_text(name: Seq<char>, args: Seq<Seq<PieceView>>) -> Seq<PieceView> {
    text_piece(name + "("@) + join_args(args) + text_piece(")"@)
}

/// The stack after calling function `name` with `n` arguments: they are
/// the top `n` fragments, in the order they were pushed (left to right).
/// With fewer than `n` fragments on the stack, all of them are taken, still
/// in push order.
pub open spec fn call_on_stack(stack: Seq<Seq<PieceView>>, name: Seq<char>, n: nat) -> Seq<
    Seq<PieceView>,
> {
    let k: nat = if stack.len() < n {
        stack.len()
    } else {
        n
    };
    stack.take(stack.len() - k).push(call_text(name, stack.skip(stack.len() - k)))
}

/// The infix text of an operator.
pub open spec fn infix_text(info: OpInfo) -> Seq<char> {
    match info.infix {
        Some(s) => s@,
        None => info.name@,
    }
}

/// Effect of an operator token (14 to 30) on the stack.
pub open spec fn apply_op(stack: Seq<Seq<PieceView>>, arity: Arity, info: OpInfo, o: FormulaOrigin) -> Result<
    Seq<Seq<PieceView>>,
    LotusErrorView,
> {
    let len = stack.len();
    match arity {
        Arity::Op => if len < 2 {
            Err(underflow(o, info.name@))
        } else {
            Ok(
                stack.take(len - 2).push(
                    text_piece("("@) + stack[len - 2] + text_piece(infix_text(info)) + stack[len
                        - 1] + text_piece(")"@),
                ),
            )
        },
        Arity::FuncFix(c) => Ok(call_on_stack(stack, info.name@, c as nat)),
        Arity::Neg => if len < 1 {
            Err(underflow(o, "-"@))
        } else {
            Ok(stack.drop_last().push(text_piece("(-"@) + stack.last() + text_piece(")"@)))
        },
        _ => Ok(stack),
    }
}

/// Effect of a token other than Return on the stack of fragments.
pub open spec fn apply_token(stack: Seq<Seq<PieceView>>, t: Token, o: FormulaOrigin) -> Result<
    Seq<Seq<PieceView>>,
    LotusErrorView,
> {
    match t {
        Token::Const(bits) => Ok(stack.push(number_pieces(Number::Double(bits)))),
        Token::Cref { rel, row, tab, col } => Ok(
            stack.push(text_piece(cref_text(rel, row, tab, col, o))),
        ),
        Token::Rref { rel, row1, tab1, col1, row2, tab2, col2 } => Ok(
            stack.push(
                text_piece(
                    cref_text(rel, row1, tab1, col1, o) + ":"@ + cref_text(
                        rel / 8,
                        row2,
                        tab2,
                        col2,
                        o,
                    ),
                ),
            ),
        ),
        Token::Return => Ok(stack),
        Token::Braces => if stack.len() == 0 {
            Err(underflow(o, "("@))
        } else {
            Ok(stack.drop_last().push(text_piece("("@) + stack.last() + text_piece(")"@)))
        },
        Token::Snum(v) => Ok(stack.push(text_piece(snum32_text(v)))),
        Token::Str(s) => Ok(stack.push(text_piece(string_literal(s)))),
        Token::NameRel(s) => Ok(stack.push(text_piece(sanitized_name(s)))),
        Token::NameAbs(s) => Ok(stack.push(text_piece(sanitized_name(strip_dollar(s))))),
        Token::ErrRef => Ok(stack.push(text_piece("#REF!"@))),
        Token::ErrCref => Ok(stack.push(text_piece("#REF!"@))),
        Token::ErrConst => Ok(stack.push(text_piece("#N/A"@))),
        Token::Reserved => Ok(stack),
        Token::Op(n) => apply_op(stack, op_table(n).0, op_table(n).1, o),
        Token::Func(n, c) => if op_table(n).0 == Arity::NotImpl {
            Ok(stack.push(text_piece("LOTUS_FN_"@ + decimal(n as nat) + "()"@)))
        } else {
            Ok(call_on_stack(stack, op_table(n).1.name@, c as nat))
        },
    }
}

/// Decoding from position `p` with `stack` already built: the formula text
/// and the position after the Return token.
pub open spec fn run(b: Seq<u8>, p: nat, stack: Seq<Seq<PieceView>>, o: FormulaOrigin) -> Result<
    (Seq<PieceView>, nat),
    LotusErrorView,
>
    decreases b.len() - p,
{
    match next_token(b, p) {
        Err(m) => Err(LotusErrorView::IO(m)),
        Ok((t, q)) => match t {
            Token::Return => if stack.len() == 0 {
                Err(formula_error(o, "empty formula stack"@))
            } else {
                Ok((stack.last(), q))
            },
            _ => match apply_token(stack, t, o) {
                Err(e) => Err(e),
                Ok(s2) => {
                    proof {
                        lemma_next_token_advances(b, p);
                    }
                    run(b, q, s2, o)
                },
            },
        },
    }
}

/// The formula text that the token bytes `b` decode to, with the number of
/// bytes up to and including the Return token.
pub open spec fn decoded_formula(b: Seq<u8>, o: FormulaOrigin) -> Result<
    (Seq<PieceView>, nat),
    LotusErrorView,
> {
    run(b, 0, Seq::empty(), o)
}

fn join_exec(args: Vec<InputText>) -> (r: InputText)
    ensures
        r@ == join_args(stack_view(args@)),
    decreases args@.len(),
{
    let mut args = args;
    let ghost all = stack_view(args@);
    if args.len() == 0 {
        return InputText::new();
    }
    let last = args.pop().unwrap();
    assert(stack_view(args@) =~= all.drop_last());
    if args.len() == 0 {
        return last;
    }
    let mut head = join_exec(args);
    head.push_str(",");
    head.append(last);
    head
}

fn call_text_exec(name: &str, args: Vec<InputText>) -> (r: InputText)
    ensures
        r@ == call_text(name@, stack_view(args@)),
{
    let mut open = String::from_str(name);
    open.append("(");
    let mut r = InputText::from_string(open);
    r.append(join_exec(args));
    r.push_str(")");
    r
}

/// Calls function `name` with `n` arguments from the stack.
fn apply_func(stack: &mut Vec<InputText>, name: &str, n: u8)
    ensures
        stack_view(final(stack)@) == call_on_stack(stack_view(old(stack)@), name@, n as nat),
{
    let n = n as usize;
    let ghost old_view = stack_view(stack@);
    let at = if stack.len() < n {
        0
    } else {
        stack.len() - n
    };
    let args = stack.split_off(at);
    assert(stack_view(args@) =~= old_view.skip(at as int));
    assert(stack_view(stack@) =~= old_view.take(at as int));
    let call = call_text_exec(name, args);
    stack.push(call);
    assert(stack_view(stack@) =~= old_view.take(at as int).push(call@));
}

/// Pops the top fragment, failing as operator `ctx` with too few operands.
fn pop(stack: &mut Vec<InputText>, origin: FormulaOrigin, ctx: &str) -> (r: Result<InputText, LotusError>)
    ensures
        old(stack)@.len() == 0 ==> (r matches Err(e) && e@ == underflow(origin, ctx@)),
        old(stack)@.len() == 0 ==> final(stack)@ == old(stack)@,
        old(stack)@.len() > 0 ==> (r matches Ok(f) && f@ == old(stack)@.last()@),
        old(stack)@.len() > 0 ==> final(stack)@ == old(stack)@.drop_last(),
{
    match stack.pop() {
        Some(f) => Ok(f),
        None => {
            let mut reason = String::from_str("stack underflow at '");
            reason.append(ctx);
            reason.append("'");
            Err(
                LotusError::Formula {
                    sheet: origin.sheet as u32,
                    row: origin.row as i32,
                    column: origin.column as i32,
                    reason,
                },
            )
        },
    }
}

/// Applies an operator token (14 to 30).
fn apply(stack: &mut Vec<InputText>, arity: Arity, op: &OpInfo, origin: FormulaOrigin) -> (r:
    Result<(), LotusError>)
    ensures
        match apply_op(stack_view(old(stack)@), arity, *op, origin) {
            Ok(s) => r is Ok && stack_view(final(stack)@) == s,
            Err(e) => r matches Err(x) && x@ == e,
        },
{
    let ghost old_view = stack_view(stack@);
    match arity {
        Arity::Op => {
            let b = pop(stack, origin, op.name)?;
            let a = pop(stack, origin, op.name)?;
            let infix = match op.infix {
                Some(s) => s,
                None => op.name,
            };
            let mut t = InputText::from_str("(");
            t.append(a);
            t.push_str(infix);
            t.append(b);
            t.push_str(")");
            stack.push(t);
            assert(stack_view(stack@) =~= old_view.take(old_view.len() - 2).push(t@));
        },
        Arity::FuncFix(n) => apply_func(stack, op.name, n),
        Arity::Neg => {
            let a = pop(stack, origin, "-")?;
            let mut t = InputText::from_str("(-");
            t.append(a);
            t.push_str(")");
            stack.push(t);
            assert(stack_view(stack@) =~= old_view.drop_last().push(t@));
        },
        _ => {},
    }
    Ok(())
}

fn push_fragment(stack: &mut Vec<InputText>, f: InputText)
    ensures
        stack_view(final(stack)@) == stack_view(old(stack)@).push(f@),
{
    let ghost before = stack_view(stack@);
    stack.push(f);
    assert(stack_view(stack@) =~= before.push(f@));
}

/// Applies a token other than Return.
fn apply_tok(stack: &mut Vec<InputText>, t: Tok, origin: FormulaOrigin) -> (r: Result<(), LotusError>)
    ensures
        match apply_token(stack_view(old(stack)@), t@, origin) {
            Ok(s) => r is Ok && stack_view(final(stack)@) == s,
            Err(e) => r matches Err(x) && x@ == e,
        },
{
    let ghost old_view = stack_view(stack@);
    match t {
        Tok::Const(bits) => {
            let pieces = number_pieces_exec(Number::Double(bits));
            push_fragment(stack, InputText { pieces });
        },
        Tok::Cref { rel, row, tab, col } => {
            push_fragment(stack, InputText::from_string(format_cref(rel, row, tab, col, origin)));
        },
        Tok::Rref { rel, row1, tab1, col1, row2, tab2, col2 } => {
            let mut s = format_cref(rel, row1, tab1, col1, origin);
            s.append(":");
            let b = format_cref(rel / 8, row2, tab2, col2, origin);
            s.append(b.as_str());
            push_fragment(stack, InputText::from_string(s));
        },
        Tok::Return => {},
        Tok::Braces => {
            let top = pop(stack, origin, "(")?;
            let mut f = InputText::from_str("(");
            f.append(top);
            f.push_str(")");
            push_fragment(stack, f);
            assert(stack_view(stack@) =~= old_view.drop_last().push(f@));
        },
        Tok::Snum(v) => {
            push_fragment(stack, InputText::from_string(snum32_text_exec(v)));
        },
        Tok::Str(s) => {
            push_fragment(stack, InputText::from_string(string_literal_exec(s.as_str())));
        },
        Tok::NameRel(s) => {
            push_fragment(stack, InputText::from_string(sanitize_name(s.as_str())));
        },
        Tok::NameAbs(s) => {
            let trimmed = strip_dollar_exec(s.as_str());
            push_fragment(stack, InputText::from_string(sanitize_name(trimmed)));
        },
        Tok::ErrRef => push_fragment(stack, InputText::from_str("#REF!")),
        Tok::ErrCref => push_fragment(stack, InputText::from_str("#REF!")),
        Tok::ErrConst => push_fragment(stack, InputText::from_str("#N/A")),
        Tok::Reserved => {},
        Tok::Op(n) => {
            let (arity, op) = op_for(n);
            return apply(stack, arity, &op, origin);
        },
        Tok::Func(n, c) => {
            let (arity, op) = op_for(n);
            if arity == Arity::NotImpl {
                let mut s = String::from_str("LOTUS_FN_");
                push_decimal(&mut s, n as u128);
                s.append("()");
                push_fragment(stack, InputText::from_string(s));
            } else {
                apply_func(stack, op.name, c);
            }
        },
    }
    Ok(())
}

/// Walks the formula token stream and returns the formula text (without
/// the leading `=`) and the number of bytes consumed.
pub fn decode_formula(bytes: &[u8], origin: FormulaOrigin) -> (r: Result<(InputText, usize), LotusError>)
    ensures
        match decoded_formula(bytes@, origin) {
            Ok((f, n)) => r matches Ok((t, m)) && t@ == f && m == n,
            Err(e) => r matches Err(x) && x@ == e,
        },
{
    let mut r = Cursor::new(bytes);
    let mut stack: Vec<InputText> = Vec::new();
    assert(stack_view(stack@) =~= Seq::<Seq<PieceView>>::empty());
    loop
        invariant_except_break
            decoded_formula(bytes@, origin) == run(bytes@, r.pos as nat, stack_view(stack@), origin),
        invariant
            r.buf == bytes,
            r.pos <= bytes@.len(),
        ensures
            decoded_formula(bytes@, origin) == if stack@.len() == 0 {
                Err(formula_error(origin, "empty formula stack"@))
            } else {
                Ok((stack@.last()@, r.pos as nat))
            },
        decreases bytes@.len() - r.pos,
    {
        let ghost p = r.pos as nat;
        let ghost s = stack_view(stack@);
        proof {
            lemma_next_token_advances(bytes@, p);
        }
        let tok = match read_token(&mut r) {
            Ok(t) => t,
            Err(e) => return Err(e),
        };
        match tok {
            Tok::Return => {
                break;
            },
            other => {
                apply_tok(&mut stack, other, origin)?;
            },
        }
    }
    let consumed = r.position();
    match stack.pop() {
        Some(f) => Ok((f, consumed)),
        None => Err(
            LotusError::Formula {
                sheet: origin.sheet as u32,
                row: origin.row as i32,
                column: origin.column as i32,
                reason: String::from_str("empty formula stack"),
            },
        ),
    }
}

proof fn lemma_run_consumed(b: Seq<u8>, p: nat, stack: Seq<Seq<PieceView>>, o: FormulaOrigin)
    ensures
        run(b, p, stack, o) matches Ok((_, n)) ==> p < n <= b.len(),
    decreases b.len() - p,
{
    lemma_next_token_advances(b, p);
    match next_token(b, p) {
        Err(_) => {},
        Ok((t, q)) => match t {
            Token::Return => {},
            _ => match apply_token(stack, t, o) {
                Err(_) => {},
                Ok(s2) => {
                    lemma_run_consumed(b, q, s2, o);
                },
            },
        },
    }
}

/// A formula of one cell-reference token decodes to that cell: a sheet
/// marker only when the token's sheet is not the formula's own sheet, then
/// a `$` before the column letters exactly when bit 0 of `rel` (column
/// relative) is clear, the column letters, a `$` before the row number
/// exactly when bit 1 of `rel` (row relative) is clear, and the one-based
/// row number. Seven bytes are read.
pub proof fn law_cell_reference_text(rel: u8, row: u16, tab: u8, col: u8, o: FormulaOrigin)
    ensures
        decoded_formula(seq![1u8, rel, (row % 256) as u8, (row / 256) as u8, tab, col, 3u8], o) == Ok::<
            (Seq<PieceView>, nat),
            LotusErrorView,
        >(
            (
                seq![
                    PieceView::Text(
                        (if tab == o.sheet {
                            Seq::<char>::empty()
                        } else {
                            "__LOTUS_TAB"@ + decimal(tab as nat) + "__!"@
                        }) + (if rel % 2 == 0 {
                            "$"@
                        } else {
                            Seq::<char>::empty()
                        }) + column_letters(col as nat) + (if (rel / 2) % 2 == 0 {
                            "$"@
                        } else {
                            Seq::<char>::empty()
                        }) + decimal(row as nat + 1),
                    ),
                ],
                7nat,
            ),
        ),
{
    reveal_strlit("$");
    let b = seq![1u8, rel, (row % 256) as u8, (row / 256) as u8, tab, col, 3u8];
    assert(u16_at(b, 2) == row);
    let t = Token::Cref { rel, row, tab, col };
    assert(next_token(b, 0) == Ok::<(Token, nat), Seq<char>>((t, 6nat)));
    let s1 = seq![text_piece(cref_text(rel, row, tab, col, o))];
    assert(apply_token(Seq::empty(), t, o) == Ok::<Seq<Seq<PieceView>>, LotusErrorView>(s1));
    assert(next_token(b, 6) == Ok::<(Token, nat), Seq<char>>((Token::Return, 7nat)));
    assert(run(b, 6, s1, o) == Ok::<(Seq<PieceView>, nat), LotusErrorView>((s1.last(), 7nat)));
    assert(seq!['$'] =~= "$"@);
}

/// The shape of the operator table: exactly the binary operators are
/// written infix, and with their own name; exactly the tokens that are not
/// implemented have an empty name; tokens below 14 are not operators, and
/// tokens 14 to 30 all are.
pub proof fn law_operator_table_shape(i: u8)
    ensures
        (op_table(i).1.infix is Some) <==> op_table(i).0 == Arity::Op,
        op_table(i).1.infix matches Some(x) ==> x@ == op_table(i).1.name@,
        (op_table(i).0 == Arity::NotImpl) <==> op_table(i).1.name@.len() == 0,
        i <= 13 ==> op_table(i).0 == Arity::NotImpl,
        14 <= i <= 30 ==> op_table(i).0 != Arity::NotImpl,
{
    reveal_strlit("");
    reveal_strlit("&");
    reveal_strlit("*");
    reveal_strlit("+");
    reveal_strlit("-");
    reveal_strlit("/");
    reveal_strlit("<");
    reveal_strlit("<=");
    reveal_strlit("<>");
    reveal_strlit("=");
    reveal_strlit(">");
    reveal_strlit(">=");
    reveal_strlit("ABS");
    reveal_strlit("ACOS");
    reveal_strlit("AND");
    reveal_strlit("ASIN");
    reveal_strlit("ATAN");
    reveal_strlit("ATAN2");
    reveal_strlit("AVERAGE");
    reveal_strlit("CELL");
    reveal_strlit("CHAR");
    reveal_strlit("CHOOSE");
    reveal_strlit("CLEAN");
    reveal_strlit("CODE");
    reveal_strlit("COLUMNS");
    reveal_strlit("COS");
    reveal_strlit("COUNT");
    reveal_strlit("COUNTA");
    reveal_strlit("DATE");
    reveal_strlit("DATEDIF");
    reveal_strlit("DATEVALUE");
    reveal_strlit("DAVERAGE");
    reveal_strlit("DAY");
    reveal_strlit("DAYS360");
    reveal_strlit("DCOUNTA");
    reveal_strlit("DDB");
    reveal_strlit("DMAX");
    reveal_strlit("DMIN");
    reveal_strlit("DSTDEV");
    reveal_strlit("DSUM");
    reveal_strlit("DVAR");
    reveal_strlit("EXACT");
    reveal_strlit("EXP");
    reveal_strlit("FALSE");
    reveal_strlit("FIND");
    reveal_strlit("FIXED");
    reveal_strlit("HLOOKUP");
    reveal_strlit("HOUR");
    reveal_strlit("IF");
    reveal_strlit("INDEX");
    reveal_strlit("INDIRECT");
    reveal_strlit("INT");
    reveal_strlit("IRR");
    reveal_strlit("ISERROR");
    reveal_strlit("ISNA");
    reveal_strlit("ISNUMBER");
    reveal_strlit("ISTEXT");
    reveal_strlit("LEFT");
    reveal_strlit("LEN");
    reveal_strlit("LN");
    reveal_strlit("LOG10");
    reveal_strlit("LOWER");
    reveal_strlit("MAX");
    reveal_strlit("MID");
    reveal_strlit("MIN");
    reveal_strlit("MINUTE");
    reveal_strlit("MOD");
    reveal_strlit("MONTH");
    reveal_strlit("N");
    reveal_strlit("NA");
    reveal_strlit("NOT");
    reveal_strlit("NPV");
    reveal_strlit("OR");
    reveal_strlit("PI");
    reveal_strlit("PROPER");
    reveal_strlit("RAND");
    reveal_strlit("RANK");
    reveal_strlit("RATE");
    reveal_strlit("REPLACE");
    reveal_strlit("REPT");
    reveal_strlit("RIGHT");
    reveal_strlit("ROUND");
    reveal_strlit("ROWS");
    reveal_strlit("SECOND");
    reveal_strlit("SIN");
    reveal_strlit("SLN");
    reveal_strlit("SQRT");
    reveal_strlit("STDEV");
    reveal_strlit("STDEVP");
    reveal_strlit("SUM");
    reveal_strlit("SUMPRODUCT");
    reveal_strlit("SYD");
    reveal_strlit("T");
    reveal_strlit("TAN");
    reveal_strlit("TIME");
    reveal_strlit("TIMEVALUE");
    reveal_strlit("TODAY");
    reveal_strlit("TRIM");
    reveal_strlit("TRUE");
    reveal_strlit("UPPER");
    reveal_strlit("VALUE");
    reveal_strlit("VAR");
    reveal_strlit("VARP");
    reveal_strlit("VLOOKUP");
    reveal_strlit("WEEKDAY");
    reveal_strlit("YEAR");
    reveal_strlit("^");
    reveal_strlit("_LOTUS_CELLPOINTER");
    reveal_strlit("_LOTUS_CTERM");
    reveal_strlit("_LOTUS_FV");
    reveal_strlit("_LOTUS_PMT");
    reveal_strlit("_LOTUS_PV");
    reveal_strlit("_LOTUS_TERM");
}

proof fn lemma_cstr_end_prefix(b: Seq<u8>, c: Seq<u8>, j: nat)
    requires
        j <= cstr_end(b, j) < b.len(),
        cstr_end(b, j) < c.len(),
        forall|k: int| j <= k <= cstr_end(b, j) ==> c[k] == b[k],
    ensures
        cstr_end(c, j) == cstr_end(b, j),
    decreases b.len() - j,
{
    if b[j as int] != 0 {
        lemma_cstr_end_bounds(b, j + 1);
        lemma_cstr_end_prefix(b, c, j + 1);
    }
}

/// A token reads only its own bytes: other bytes that agree on them read
/// the same token (a string's terminator must lie within them).
proof fn lemma_next_token_prefix(b: Seq<u8>, c: Seq<u8>, p: nat, q: nat)
    requires
        next_token(b, p) matches Ok((_, e)) && e == q,
        q <= c.len(),
        forall|k: int| 0 <= k < q ==> c[k] == b[k],
        p < b.len() && (b[p as int] == 6 || b[p as int] == 7 || b[p as int] == 8) ==> q < b.len(),
    ensures
        next_token(c, p) == next_token(b, p),
{
    lemma_next_token_advances(b, p);
    let i = p as int;
    let op = b[i];
    assert(c[p as int] == op);
    if op == 6 || op == 7 || op == 8 {
        lemma_cstr_end_bounds(b, p + 1);
        let e = cstr_end(b, p + 1);
        assert(e < b.len());
        lemma_cstr_end_prefix(b, c, p + 1);
        assert(c.subrange(i + 1, e as int) =~= b.subrange(i + 1, e as int));
    } else if op == 0 {
        assert(u64_at(c, i + 1) == u64_at(b, i + 1)) by {
            assert(c[i + 1] == b[i + 1] && c[i + 2] == b[i + 2] && c[i + 3] == b[i + 3] && c[i + 4] == b[i + 4]);
            assert(c[i + 5] == b[i + 5] && c[i + 6] == b[i + 6] && c[i + 7] == b[i + 7] && c[i + 8] == b[i + 8]);
        }
    } else if op == 1 {
        assert(c[i + 1] == b[i + 1] && c[i + 2] == b[i + 2] && c[i + 3] == b[i + 3] && c[i + 4] == b[i + 4] && c[i + 5] == b[i + 5]);
    } else if op == 2 {
        assert(c[i + 1] == b[i + 1] && c[i + 2] == b[i + 2] && c[i + 3] == b[i + 3] && c[i + 4] == b[i + 4] && c[i + 5] == b[i + 5]);
        assert(c[i + 6] == b[i + 6] && c[i + 7] == b[i + 7] && c[i + 8] == b[i + 8] && c[i + 9] == b[i + 9]);
    } else if op == 5 {
        assert(c[i + 1] == b[i + 1] && c[i + 2] == b[i + 2] && c[i + 3] == b[i + 3] && c[i + 4] == b[i + 4]);
    } else if op > 30 {
        if op_table(op).0 == Arity::FuncVar {
            assert(c[i + 1] == b[i + 1]);
        }
    }
}

proof fn lemma_run_prefix(b: Seq<u8>, c: Seq<u8>, p: nat, stack: Seq<Seq<PieceView>>, o: FormulaOrigin, n: nat)
    requires
        run(b, p, stack, o) matches Ok((_, m)) && m == n,
        n <= c.len(),
        forall|k: int| 0 <= k < n ==> c[k] == b[k],
    ensures
        run(c, p, stack, o) == run(b, p, stack, o),
        b[n - 1] == 3,
    decreases b.len() - p,
{
    lemma_next_token_advances(b, p);
    match next_token(b, p) {
        Err(_) => {},
        Ok((t, q)) => {
            match t {
                Token::Return => {
                    assert(b[p as int] == 3);
                    lemma_next_token_prefix(b, c, p, q);
                },
                _ => {
                    match apply_token(stack, t, o) {
                        Err(_) => {},
                        Ok(s2) => {
                            lemma_run_consumed(b, q, s2, o);
                            lemma_next_token_prefix(b, c, p, q);
                            lemma_run_prefix(b, c, q, s2, o, n);
                        },
                    }
                },
            }
        },
    }
}

/// A decoded formula ends within its token bytes: the number of bytes it
/// consumes is at least one and at most the length of the bytes, the last
/// byte consumed is the Return token (3), and the bytes after it do not
/// change the result.
pub proof fn law_decoding_stays_within_the_tokens(b: Seq<u8>, o: FormulaOrigin, tail: Seq<u8>)
    ensures
        decoded_formula(b, o) matches Ok((s, n)) ==> {
            &&& 0 < n <= b.len()
            &&& b[n - 1] == 3
            &&& decoded_formula(b.take(n as int) + tail, o) == Ok::<(Seq<PieceView>, nat), LotusErrorView>((s, n))
        },
{
    lemma_run_consumed(b, 0, Seq::empty(), o);
    match decoded_formula(b, o) {
        Ok((_, n)) => {
            let c = b.take(n as int) + tail;
            assert forall|k: int| 0 <= k < n implies c[k] == b[k] by {}
            lemma_run_prefix(b, c, 0, Seq::empty(), o, n);
        },
        Err(_) => {},
    }
}

/// A defined name made by [`sanitize_name`] is never empty, does not start
/// with a digit, and has only letters, digits, `_` and `.`.
pub proof fn law_sanitized_names_are_names(s: Seq<char>)
    ensures
        sanitized_name(s).len() > 0,
        !is_ascii_digit(sanitized_name(s)[0]),
        forall|i: int|
            0 <= i < sanitized_name(s).len() ==> {
                let c = #[trigger] sanitized_name(s)[i];
                alphanumeric(c) || c == '_' || c == '.'
            },
{
    if s.len() > 0 {
        let mapped = s.map_values(|c: char| name_char(c));
        let prefix = if is_ascii_digit(s[0]) {
            seq!['_']
        } else {
            Seq::<char>::empty()
        };
        assert(sanitized_name(s) == prefix + mapped);
        assert forall|i: int| 0 <= i < sanitized_name(s).len() implies {
            let c = #[trigger] sanitized_name(s)[i];
            alphanumeric(c) || c == '_' || c == '.'
        } by {
            if i >= prefix.len() {
                assert(sanitized_name(s)[i] == mapped[i - prefix.len()]);
            }
        }
        if !is_ascii_digit(s[0]) {
            assert(sanitized_name(s)[0] == name_char(s[0]));
        }
    }
}

} // verus!
