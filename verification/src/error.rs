//! Errors reported while importing a WK3 workbook.

use vstd::prelude::*;

use crate::text::{decimal, hex4, push_char, push_decimal, push_hex4};

verus! {

/// Why an import failed.
#[derive(Debug, Clone)]
pub enum LotusError {
    IO(String),
    NotWk3(String),
    Truncated { offset: u64, opcode: u16, expected: usize },
    Formula { sheet: u32, row: i32, column: i32, reason: String },
    Workbook(String),
}

/// The content of a [`LotusError`], with its texts as character sequences.
pub enum LotusErrorView {
    IO(Seq<char>),
    NotWk3(Seq<char>),
    Truncated { offset: u64, opcode: u16, expected: usize },
    Formula { sheet: u32, row: i32, column: i32, reason: Seq<char> },
    Workbook(Seq<char>),
}

impl View for LotusError {
    type V = LotusErrorView;

    open spec fn view(&self) -> LotusErrorView {
        match self {
            LotusError::IO(s) => LotusErrorView::IO(s@),
            LotusError::NotWk3(s) => LotusErrorView::NotWk3(s@),
            LotusError::Truncated { offset, opcode, expected } => LotusErrorView::Truncated {
                offset: *offset,
                opcode: *opcode,
                expected: *expected,
            },
            LotusError::Formula { sheet, row, column, reason } => LotusErrorView::Formula {
                sheet: *sheet,
                row: *row,
                column: *column,
                reason: reason@,
            },
            LotusError::Workbook(s) => LotusErrorView::Workbook(s@),
        }
    }
}

/// Decimal text of a signed integer (`-` then the digits of its magnitude).
pub open spec fn signed_decimal(v: int) -> Seq<char> {
    if v < 0 {
        seq!['-'] + decimal((-v) as nat)
    } else {
        decimal(v as nat)
    }
}

/// The user-facing message of an error.
pub open spec fn error_message(e: LotusErrorView) -> Seq<char> {
    match e {
        LotusErrorView::IO(s) => "I/O error: "@ + s,
        LotusErrorView::NotWk3(s) => "Not a Lotus WK3 file: "@ + s,
        LotusErrorView::Truncated { offset, opcode, expected } => "Truncated record at offset "@
            + decimal(offset as nat) + ": opcode 0x"@ + hex4(opcode) + " expected "@ + decimal(
            expected as nat,
        ) + " bytes"@,
        LotusErrorView::Formula { sheet, row, column, reason } => "Malformed formula in cell "@
            + decimal(sheet as nat) + "!"@ + signed_decimal(column as int) + signed_decimal(
            row as int,
        ) + ": "@ + reason,
        LotusErrorView::Workbook(s) => s,
    }
}

fn push_signed(s: &mut String, v: i32)
    ensures
        final(s)@ == old(s)@ + signed_decimal(v as int),
{
    if v < 0 {
        push_char(s, '-');
        let m: i64 = -(v as i64);
        push_decimal(s, m as u128);
    } else {
        push_decimal(s, v as u128);
    }
}

impl LotusError {
    /// The message shown to users for this error.
    pub fn message(&self) -> (m: String)
        ensures
            m@ == error_message(self@),
    {
        let mut m = String::new();
        match self {
            LotusError::IO(s) => {
                m.append("I/O error: ");
                m.append(s.as_str());
            },
            LotusError::NotWk3(s) => {
                m.append("Not a Lotus WK3 file: ");
                m.append(s.as_str());
            },
            LotusError::Truncated { offset, opcode, expected } => {
                m.append("Truncated record at offset ");
                push_decimal(&mut m, *offset as u128);
                m.append(": opcode 0x");
                push_hex4(&mut m, *opcode);
                m.append(" expected ");
                push_decimal(&mut m, *expected as u128);
                m.append(" bytes");
            },
            LotusError::Formula { sheet, row, column, reason } => {
                m.append("Malformed formula in cell ");
                push_decimal(&mut m, *sheet as u128);
                m.append("!");
                push_signed(&mut m, *column);
                push_signed(&mut m, *row);
                m.append(": ");
                m.append(reason.as_str());
            },
            LotusError::Workbook(s) => {
                m.append(s.as_str());
            },
        }
        m
    }
}

} // verus!
