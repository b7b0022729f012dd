//! The values and field descriptions that producers hand to a renderer.
use vstd::prelude::*;

use crate::numfmt::{dec_text, hex2_text, push_decimal, push_hex2, push_signed, signed_text};

verus! {

/// How a field value should be displayed.
#[derive(Debug, PartialEq)]
pub enum Value {
    /// Decimal unsigned: `= 256`
    Unsigned(u64),
    /// Decimal signed: `= -2`
    Signed(i64),
    /// Hexadecimal: `= 0x47`
    Hex(u64),
    /// Bit string: `= '111111'`
    BitString(String),
    /// Boolean displayed as 0/1: `= 1`
    Bool(bool),
}

/// The text a value is displayed as.
pub open spec fn value_text(v: Value) -> Seq<char> {
    match v {
        Value::Unsigned(n) => dec_text(n as nat),
        Value::Signed(n) => signed_text(n as int),
        Value::Hex(n) => seq!['0', 'x'] + hex2_text(n as nat),
        Value::BitString(s) => seq!['\''] + s@ + seq!['\''],
        Value::Bool(b) => if b {
            seq!['1']
        } else {
            seq!['0']
        },
    }
}

impl Clone for Value {
    fn clone(&self) -> (r: Self)
        ensures
            r == *self,
    {
        match self {
            Value::Unsigned(n) => Value::Unsigned(*n),
            Value::Signed(n) => Value::Signed(*n),
            Value::Hex(n) => Value::Hex(*n),
            Value::BitString(s) => Value::BitString(s.clone()),
            Value::Bool(b) => Value::Bool(*b),
        }
    }
}

impl Value {
    /// Appends the display text of this value to `s`.
    pub fn push_text(&self, s: &mut String)
        ensures
            final(s)@ == old(s)@ + value_text(*self),
    {
        proof {
            reveal_strlit("0x");
            reveal_strlit("'");
            reveal_strlit("1");
            reveal_strlit("0");
        }
        match self {
            Value::Unsigned(n) => push_decimal(s, *n),
            Value::Signed(n) => push_signed(s, *n),
            Value::Hex(n) => {
                s.append("0x");
                push_hex2(s, *n);
            },
            Value::BitString(b) => {
                s.append("'");
                s.append(b.as_str());
                s.append("'");
            },
            Value::Bool(b) => {
                if *b {
                    s.append("1");
                } else {
                    s.append("0");
                }
            },
        }
    }

    /// The display text of this value as a new string.
    pub fn to_text(&self) -> (r: String)
        ensures
            r@ == value_text(*self),
    {
        let mut s = String::new();
        self.push_text(&mut s);
        s
    }
}

/// Term annotation: `/* name: value */` on condition/loop lines.
pub struct TermAnnotation<'a> {
    pub name: &'a str,
    pub value: Value,
}

/// A fixed-width field read from the bitstream.
pub struct FixedWidthField<'a> {
    /// Field name, e.g. `"sync_byte"`, `"offset_for_ref_frame[ 0 ]"`
    pub name: &'a str,
    /// Number of bits
    pub bits: u32,
    /// Type descriptor, e.g. `"bslbf"`, `"u(8)"`, `"f(1)"`
    pub descriptor: &'a str,
    /// Decoded value, or `None` for raw-byte field templates
    pub value: Option<Value>,
    /// Inline comment, e.g. `"equal to 0x03"`
    pub comment: Option<&'a str>,
}

/// A variable-length coded field.
pub struct VariableLengthField<'a> {
    /// Field name
    pub name: &'a str,
    /// Descriptor, e.g. `"ue(v)"`, `"se(v)"`, `"me(v)"`
    pub descriptor: &'a str,
    /// Decoded value
    pub value: Option<Value>,
    /// Inline comment
    pub comment: Option<&'a str>,
}

/// A fixed bit pattern or marker bit field.
pub struct BitPatternField<'a> {
    /// Pattern name, e.g. `"'0010'"` or `"marker_bit"`
    pub name: &'a str,
    /// Number of bits
    pub bits: u32,
    /// Descriptor, e.g. `"bslbf"`
    pub descriptor: &'a str,
    /// The actual value
    pub value: Value,
}

/// One column of a field table: a field repeated once per row.
pub struct ColumnDef<'a> {
    /// Field name, e.g. `"scale_factor"`
    pub name: &'a str,
    /// Descriptor, e.g. `"uimsbf"`
    pub descriptor: &'a str,
    /// Number of bits, or `None` for a variable-length field
    pub bits: Option<u32>,
}

/// A table of repeated fields: one row per loop iteration, one value per column.
pub struct FieldTable<'a> {
    pub columns: &'a [ColumnDef<'a>],
    pub rows: &'a [&'a [Value]],
}

} // verus!
