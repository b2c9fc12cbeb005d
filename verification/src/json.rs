//! Writing a JSON value into a reflected field.
use vstd::prelude::*;

verus! {

/// A JSON number: an integer, or a floating-point number by its bits.
#[derive(Clone, Copy, Debug, PartialEq, Eq, Structural)]
pub enum JsonNumber {
    Int(i128),
    Float(u64),
}

/// A JSON value, as far as a field edit looks into it.
#[derive(Debug)]
pub enum JsonValue {
    Null,
    Bool(bool),
    Number(JsonNumber),
    String(String),
    Array,
    Object,
}

/// What kind of value a reflected field holds.
#[derive(Clone, Copy, Debug, PartialEq, Eq, Structural)]
pub enum FieldKind {
    F32,
    F64,
    I32,
    U32,
    Usize,
    I8,
    I16,
    I64,
    U8,
    U16,
    U64,
    Bool,
    Text,
    Other,
}

/// What a JSON value does to a reflected field.
#[derive(Debug)]
pub enum ReflectEdit {
    /// The field stays as it is.
    Keep,
    /// The number, rounded to single precision.
    F32(JsonNumber),
    /// The number, in double precision.
    F64(JsonNumber),
    I32(i32),
    U32(u32),
    Usize(usize),
    I8(i8),
    I16(i16),
    I64(i64),
    U8(u8),
    U16(u16),
    U64(u64),
    Bool(bool),
    Text(String),
    /// The value is deserialized by the type of the field.
    Deserialize,
}

/// The signed integer that a JSON number is taken as; zero when it is none.
pub open spec fn signed_of(n: JsonNumber) -> i64 {
    match n {
        JsonNumber::Int(v) => if i64::MIN <= v <= i64::MAX {
            v as i64
        } else {
            0
        },
        JsonNumber::Float(_) => 0,
    }
}

/// The unsigned integer that a JSON number is taken as; zero when it is none.
pub open spec fn unsigned_of(n: JsonNumber) -> u64 {
    match n {
        JsonNumber::Int(v) => if 0 <= v <= u64::MAX {
            v as u64
        } else {
            0
        },
        JsonNumber::Float(_) => 0,
    }
}

/// `serde_json::Number::as_i64`, on the number that `serde_json::Number::from_i128` makes: the
/// integer where it fits, else nothing. Integers that fit neither `i64` nor `u64` make no number.
#[verifier::external_body]
fn number_as_i64(v: i128) -> (r: Option<i64>)
    ensures
        r == (if i64::MIN <= v <= i64::MAX {
            Some(v as i64)
        } else {
            None
        }),
{
    serde_json::Number::from_i128(v).and_then(|n| n.as_i64())
}

/// `serde_json::Number::as_u64`, on the number that `serde_json::Number::from_i128` makes: the
/// integer where it fits, else nothing. Integers that fit neither `i64` nor `u64` make no number.
#[verifier::external_body]
fn number_as_u64(v: i128) -> (r: Option<u64>)
    ensures
        r == (if 0 <= v <= u64::MAX {
            Some(v as u64)
        } else {
            None
        }),
{
    serde_json::Number::from_i128(v).and_then(|n| n.as_u64())
}

/// The signed integer that a JSON number is taken as.
pub fn signed(n: JsonNumber) -> (r: i64)
    ensures
        r == signed_of(n),
{
    match n {
        JsonNumber::Int(v) => match number_as_i64(v) {
            Some(i) => i,
            None => 0,
        },
        JsonNumber::Float(_) => 0,
    }
}

/// The unsigned integer that a JSON number is taken as.
pub fn unsigned(n: JsonNumber) -> (r: u64)
    ensures
        r == unsigned_of(n),
{
    match n {
        JsonNumber::Int(v) => match number_as_u64(v) {
            Some(i) => i,
            None => 0,
        },
        JsonNumber::Float(_) => 0,
    }
}

/// What a JSON number does to a field: integers are cut to the width of the field.
pub open spec fn number_edit(kind: FieldKind, n: JsonNumber) -> ReflectEdit {
    match kind {
        FieldKind::F32 => ReflectEdit::F32(n),
        FieldKind::F64 => ReflectEdit::F64(n),
        FieldKind::I32 => ReflectEdit::I32(signed_of(n) as i32),
        FieldKind::U32 => ReflectEdit::U32(unsigned_of(n) as u32),
        FieldKind::Usize => ReflectEdit::Usize(unsigned_of(n) as usize),
        FieldKind::I8 => ReflectEdit::I8(signed_of(n) as i8),
        FieldKind::I16 => ReflectEdit::I16(signed_of(n) as i16),
        FieldKind::I64 => ReflectEdit::I64(signed_of(n)),
        FieldKind::U8 => ReflectEdit::U8(unsigned_of(n) as u8),
        FieldKind::U16 => ReflectEdit::U16(unsigned_of(n) as u16),
        FieldKind::U64 => ReflectEdit::U64(unsigned_of(n)),
        FieldKind::Bool | FieldKind::Text | FieldKind::Other => ReflectEdit::Keep,
    }
}

/// What a JSON value does to a field: numbers and booleans set fields of their kind, texts set
/// texts, everything else but null is deserialized by the type of the field.
pub fn apply_json_to_reflect(kind: FieldKind, value: &JsonValue) -> (r: ReflectEdit)
    ensures
        match *value {
            JsonValue::Number(n) => r == number_edit(kind, n),
            JsonValue::Bool(b) => r == (if kind == FieldKind::Bool {
                ReflectEdit::Bool(b)
            } else {
                ReflectEdit::Keep
            }),
            JsonValue::String(s) => r == (if kind == FieldKind::Text {
                ReflectEdit::Text(s)
            } else {
                ReflectEdit::Deserialize
            }),
            JsonValue::Array | JsonValue::Object => r == ReflectEdit::Deserialize,
            JsonValue::Null => r == ReflectEdit::Keep,
        },
{
    match value {
        JsonValue::Number(n) => match kind {
            FieldKind::F32 => ReflectEdit::F32(*n),
            FieldKind::F64 => ReflectEdit::F64(*n),
            FieldKind::I32 => ReflectEdit::I32(#[verifier::truncate] (signed(*n) as i32)),
            FieldKind::U32 => ReflectEdit::U32(#[verifier::truncate] (unsigned(*n) as u32)),
            FieldKind::Usize => ReflectEdit::Usize(#[verifier::truncate] (unsigned(*n) as usize)),
            FieldKind::I8 => ReflectEdit::I8(#[verifier::truncate] (signed(*n) as i8)),
            FieldKind::I16 => ReflectEdit::I16(#[verifier::truncate] (signed(*n) as i16)),
            FieldKind::I64 => ReflectEdit::I64(signed(*n)),
            FieldKind::U8 => ReflectEdit::U8(#[verifier::truncate] (unsigned(*n) as u8)),
            FieldKind::U16 => ReflectEdit::U16(#[verifier::truncate] (unsigned(*n) as u16)),
            FieldKind::U64 => ReflectEdit::U64(unsigned(*n)),
            FieldKind::Bool | FieldKind::Text | FieldKind::Other => ReflectEdit::Keep,
        },
        JsonValue::Bool(b) => if kind == FieldKind::Bool {
            ReflectEdit::Bool(*b)
        } else {
            ReflectEdit::Keep
        },
        JsonValue::String(s) => if kind == FieldKind::Text {
            ReflectEdit::Text(s.clone())
        } else {
            ReflectEdit::Deserialize
        },
        JsonValue::Array | JsonValue::Object => ReflectEdit::Deserialize,
        JsonValue::Null => ReflectEdit::Keep,
    }
}

/// A whole number that fits a field is written as it is.
pub proof fn law_fitting_numbers_are_written(v: i128)
    ensures
        -0x80 <= v <= 0x7f ==> number_edit(FieldKind::I8, JsonNumber::Int(v)) == ReflectEdit::I8(
            v as i8,
        ),
        -0x8000 <= v <= 0x7fff ==> number_edit(FieldKind::I16, JsonNumber::Int(v))
            == ReflectEdit::I16(v as i16),
        -0x8000_0000 <= v <= 0x7fff_ffff ==> number_edit(FieldKind::I32, JsonNumber::Int(v))
            == ReflectEdit::I32(v as i32),
        i64::MIN <= v <= i64::MAX ==> number_edit(FieldKind::I64, JsonNumber::Int(v))
            == ReflectEdit::I64(v as i64),
        0 <= v <= 0xff ==> number_edit(FieldKind::U8, JsonNumber::Int(v)) == ReflectEdit::U8(
            v as u8,
        ),
        0 <= v <= 0xffff ==> number_edit(FieldKind::U16, JsonNumber::Int(v)) == ReflectEdit::U16(
            v as u16,
        ),
        0 <= v <= 0xffff_ffff ==> number_edit(FieldKind::U32, JsonNumber::Int(v))
            == ReflectEdit::U32(v as u32) && number_edit(FieldKind::Usize, JsonNumber::Int(v))
            == ReflectEdit::Usize(v as usize),
        0 <= v <= u64::MAX ==> number_edit(FieldKind::U64, JsonNumber::Int(v)) == ReflectEdit::U64(
            v as u64,
        ),
{
}

/// A number that is no whole number, or lies outside the range of 64 bits, is zero in fields for whole
/// numbers, and negative ones are zero in fields without sign.
pub proof fn law_other_numbers_are_zero(v: i128, bits: u64)
    ensures
        v < i64::MIN || v > i64::MAX ==> number_edit(FieldKind::I64, JsonNumber::Int(v))
            == ReflectEdit::I64(0) && number_edit(FieldKind::I32, JsonNumber::Int(v))
            == ReflectEdit::I32(0),
        v < 0 || v > u64::MAX ==> number_edit(FieldKind::U64, JsonNumber::Int(v))
            == ReflectEdit::U64(0) && number_edit(FieldKind::U32, JsonNumber::Int(v))
            == ReflectEdit::U32(0) && number_edit(FieldKind::Usize, JsonNumber::Int(v))
            == ReflectEdit::Usize(0),
        number_edit(FieldKind::I64, JsonNumber::Float(bits)) == ReflectEdit::I64(0),
        number_edit(FieldKind::U64, JsonNumber::Float(bits)) == ReflectEdit::U64(0),
        number_edit(FieldKind::F32, JsonNumber::Float(bits)) == ReflectEdit::F32(
            JsonNumber::Float(bits),
        ),
        number_edit(FieldKind::F64, JsonNumber::Float(bits)) == ReflectEdit::F64(
            JsonNumber::Float(bits),
        ),
{
}

/// A whole number that is too large for a field without sign is cut to its width.
pub proof fn law_large_numbers_are_cut(v: u64)
    ensures
        number_edit(FieldKind::U8, JsonNumber::Int(v as i128)) == ReflectEdit::U8(
            (v % 0x100) as u8,
        ),
        number_edit(FieldKind::U16, JsonNumber::Int(v as i128)) == ReflectEdit::U16(
            (v % 0x1_0000) as u16,
        ),
        number_edit(FieldKind::U32, JsonNumber::Int(v as i128)) == ReflectEdit::U32(
            (v % 0x1_0000_0000) as u32,
        ),
{
    assert(v as u8 == v % 0x100) by (bit_vector);
    assert(v as u16 == v % 0x1_0000) by (bit_vector);
    assert(v as u32 == v % 0x1_0000_0000) by (bit_vector);
}

} // verus!
