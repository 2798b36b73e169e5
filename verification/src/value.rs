//! The machine's values.
//!
//! A value is a scalar (`null`, a boolean, a 64-bit integer, a float held by
//! its IEEE-754 bit pattern) or a reference to a heap object (see
//! [`crate::heap`]). Strings, arrays, objects and every other compound value
//! live on the heap.
use vstd::prelude::*;

verus! {

/// One machine value.
#[derive(Clone, Copy, PartialEq, Eq, Structural, Debug)]
pub enum Value {
    Null,
    Bool(bool),
    Int(i64),
    /// A float, by its IEEE-754 binary64 bit pattern.
    Float(u64),
    /// A reference to heap object number `idx`.
    Obj(usize),
}

/// The sign bit of a binary64 pattern cleared: zero exactly for `+0.0` and `-0.0`.
pub open spec fn float_magnitude_bits(bits: u64) -> int {
    bits as int % 0x8000_0000_0000_0000
}

/// Whether a binary64 pattern is a NaN: all exponent bits set, a nonzero fraction.
pub open spec fn float_is_nan(bits: u64) -> bool {
    float_magnitude_bits(bits) > 0x7FF0_0000_0000_0000
}

/// Truthiness: `null`, `false`, the integer `0`, a float zero of either sign
/// and a NaN are false; every other value, every heap reference included, is true.
pub open spec fn truthy(v: Value) -> bool {
    match v {
        Value::Null => false,
        Value::Bool(b) => b,
        Value::Int(n) => n != 0,
        Value::Float(bits) => float_magnitude_bits(bits) != 0 && !float_is_nan(bits),
        Value::Obj(_) => true,
    }
}

impl Value {
    /// Whether the value counts as true in a condition.
    pub fn is_truthy(&self) -> (b: bool)
        ensures
            b == truthy(*self),
    {
        match *self {
            Value::Null => false,
            Value::Bool(b) => b,
            Value::Int(n) => n != 0,
            Value::Float(bits) => {
                let mag = bits & 0x7FFF_FFFF_FFFF_FFFFu64;
                assert(mag == bits as int % 0x8000_0000_0000_0000) by (bit_vector)
                    requires
                        mag == bits & 0x7FFF_FFFF_FFFF_FFFFu64,
                ;
                mag != 0 && mag <= 0x7FF0_0000_0000_0000u64
            },
            Value::Obj(_) => true,
        }
    }

    pub fn is_null(&self) -> (b: bool)
        ensures
            b == (*self is Null),
    {
        match *self {
            Value::Null => true,
            _ => false,
        }
    }
}

} // verus!
