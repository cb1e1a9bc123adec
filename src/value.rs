use vstd::prelude::*;

verus! {

/// The unscaled integer of a decimal cell, as big-endian two's-complement bytes.
#[derive(Debug, PartialEq)]
pub enum Unscaled {
    Four([u8; 4]),
    Eight([u8; 8]),
    Bytes(Vec<u8>),
}

/// A decimal cell: an unscaled integer and the number of digits after the point.
#[derive(Debug, PartialEq)]
pub struct Decimal {
    pub scale: i32,
    pub unscaled: Unscaled,
}

/// One decoded column cell. Floats are carried as their IEEE-754 bit patterns.
#[derive(Debug, PartialEq)]
pub enum Value {
    Null,
    Bool(bool),
    Int8(i8),
    Int16(i16),
    Int32(i32),
    Int64(i64),
    UInt8(u8),
    UInt16(u16),
    UInt32(u32),
    UInt64(u64),
    Float32(u32),
    Float64(u64),
    Str(String),
    Bytes(Vec<u8>),
    Decimal(Decimal),
    /// Days since 1970-01-01.
    Date(i32),
    TimestampMillis(i64),
    TimestampMicros(i64),
    List(Vec<Value>),
    KeyValue(Vec<(Value, Value)>),
    Record(Vec<(String, Value)>),
}

impl Unscaled {
    pub open spec fn bytes(&self) -> Seq<u8> {
        match self {
            Unscaled::Four(b) => b@,
            Unscaled::Eight(b) => b@,
            Unscaled::Bytes(b) => b@,
        }
    }
}

/// The integer that big-endian two's-complement bytes stand for.
pub open spec fn signed_be(s: Seq<u8>) -> int
    decreases s.len(),
{
    if s.len() == 0 {
        0
    } else if s.len() == 1 {
        if s[0] >= 128 {
            s[0] as int - 256
        } else {
            s[0] as int
        }
    } else {
        signed_be(s.drop_last()) * 256 + s.last() as int
    }
}

/// The exponent field of a double is all ones exactly for NaN and the infinities.
pub open spec fn f64_bits_finite(bits: u64) -> bool {
    (bits / 0x10_0000_0000_0000) % 0x800 != 0x7ff
}

/// The exponent field of a single is all ones exactly for NaN and the infinities.
pub open spec fn f32_bits_finite(bits: u32) -> bool {
    (bits / 0x80_0000) % 0x100 != 0xff
}

/// Whether a value nests no deeper than `budget` levels of lists, maps and records.
pub open spec fn fits_depth(v: &Value, budget: nat) -> bool
    decreases v,
{
    match v {
        Value::List(items) => budget > 0 && forall|i: int|
            0 <= i < items.len() ==> fits_depth(&items[i], (budget - 1) as nat),
        Value::KeyValue(pairs) => budget > 0 && forall|i: int|
            0 <= i < pairs.len() ==> fits_depth(&pairs[i].0, (budget - 1) as nat) && fits_depth(
                &pairs[i].1,
                (budget - 1) as nat,
            ),
        Value::Record(fields) => budget > 0 && forall|i: int|
            0 <= i < fields.len() ==> fits_depth(&fields[i].1, (budget - 1) as nat),
        _ => true,
    }
}

} // verus!
