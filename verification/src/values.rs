//! The model of one cell's content.
//!
//! Floating-point cells are carried by their IEEE-754 bit patterns: the
//! library never computes with them, it only stores and hands them on.

use vstd::prelude::*;

use crate::text::dec_digits;

verus! {

/// One cell of a worksheet. `Float` and `DateTime` hold the bits of the
/// underlying 64-bit floating-point value; `Error` stands for any document
/// error cell, whose kind the model does not keep.
#[derive(Debug, Clone, PartialEq)]
pub enum CellValue {
    Empty,
    Bool(bool),
    Int(i64),
    Float(u64),
    DateTime(u64),
    Text(String),
    Error,
}

/// The standard rendering of the 64-bit float with the given bits; it
/// depends on the bits alone.
pub uninterp spec fn float_text_of(bits: u64) -> Seq<char>;

/// The decimal rendering of a signed integer.
pub open spec fn int_text(i: int) -> Seq<char> {
    if i < 0 {
        seq!['-'] + dec_digits((-i) as nat)
    } else {
        dec_digits(i as nat)
    }
}

/// Whether this model pins the textual rendering of a value down: it does
/// for every kind but `Error`, whose kind the model does not keep.
pub open spec fn has_text(v: CellValue) -> bool {
    !(v is Error)
}

/// The text a cell renders to: the string itself, a decimal integer, the
/// float rendering of the bits, `true`/`false`, or nothing. Meaningful only
/// where `has_text` holds.
pub open spec fn text_of(v: CellValue) -> Seq<char> {
    match v {
        CellValue::Empty => Seq::empty(),
        CellValue::Bool(b) => if b {
            seq!['t', 'r', 'u', 'e']
        } else {
            seq!['f', 'a', 'l', 's', 'e']
        },
        CellValue::Int(i) => int_text(i as int),
        CellValue::Float(bits) => float_text_of(bits),
        CellValue::DateTime(bits) => float_text_of(bits),
        CellValue::Text(s) => s@,
        CellValue::Error => Seq::empty(),
    }
}

} // verus!
