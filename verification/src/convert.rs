//! Explicit numeric conversions (`as` between `int`, `float`, `bigint` and
//! `decimal`): which representation a number takes, and when it does not
//! fit. A conversion to a float, or of a float, computes in floats and is
//! left to the caller.
use vstd::prelude::*;
use bigdecimal::{BigDecimal, RoundingMode};
use bigdecimal::num_bigint::{BigInt as DecInt, Sign as DecSign};
use num_bigint::{BigInt, Sign};
use num_traits::ToPrimitive;
use crate::value::Value;
use crate::heap::{Heap, HeapObj};
use crate::error::{RuntimeError, VmError};
use crate::arith::{Outcome, outcome_done};
use crate::bigint::{BigNum, big_value, big_from_int};
use crate::decimal::{DecNum, dec_unscaled, scale_ok, scale_within, pow10};
use crate::int_ops::{in_int_range, trunc_div};

verus! {

/// A numeric conversion: the source it is written for and its target.
#[derive(Clone, Copy, PartialEq, Eq, Structural, Debug)]
pub enum NumConv {
    FloatToInt,
    BigIntToInt,
    DecimalToInt,
    DynToInt,
    IntToFloat,
    DynToFloat,
    BigIntToFloat,
    DecimalToFloat,
    IntToBigInt,
    FloatToBigInt,
    DecimalToBigInt,
    IntToDecimal,
    FloatToDecimal,
    BigIntToDecimal,
}

/// The representation a conversion produces.
#[derive(Clone, Copy, PartialEq, Eq, Structural, Debug)]
pub enum NumTarget {
    Int,
    Float,
    BigInt,
    Decimal,
}

/// The representation that conversion `c` produces.
pub open spec fn target_of(c: NumConv) -> NumTarget {
    match c {
        NumConv::FloatToInt | NumConv::BigIntToInt | NumConv::DecimalToInt | NumConv::DynToInt => NumTarget::Int,
        NumConv::IntToFloat | NumConv::DynToFloat | NumConv::BigIntToFloat | NumConv::DecimalToFloat => NumTarget::Float,
        NumConv::IntToBigInt | NumConv::FloatToBigInt | NumConv::DecimalToBigInt => NumTarget::BigInt,
        _ => NumTarget::Decimal,
    }
}

/// The representation that conversion `c` produces.
pub fn target(c: NumConv) -> (t: NumTarget)
    ensures
        t == target_of(c),
{
    match c {
        NumConv::FloatToInt | NumConv::BigIntToInt | NumConv::DecimalToInt | NumConv::DynToInt => NumTarget::Int,
        NumConv::IntToFloat | NumConv::DynToFloat | NumConv::BigIntToFloat | NumConv::DecimalToFloat => NumTarget::Float,
        NumConv::IntToBigInt | NumConv::FloatToBigInt | NumConv::DecimalToBigInt => NumTarget::BigInt,
        _ => NumTarget::Decimal,
    }
}

/// The error of a conversion to `int` of a number outside its range.
pub fn out_of_int_range() -> (e: RuntimeError)
    ensures
        e == RuntimeError::IntOutOfRange,
{
    RuntimeError::IntOutOfRange
}

/// The integer part of `m·10^-s`, truncated toward zero.
pub open spec fn dec_trunc(m: int, s: int) -> int {
    if s >= 0 { trunc_div(m, pow10(s as nat)) } else { m * pow10((-s) as nat) }
}

/// `a` as a 64-bit integer when it is one, by `num_traits::ToPrimitive::to_i64`
/// for `BigInt`.
#[verifier::external_body]
fn big_to_i64(a: &BigNum) -> (r: Option<i64>)
    ensures
        in_int_range(big_value(*a)) ==> r == Some(big_value(*a) as i64),
        !in_int_range(big_value(*a)) ==> r is None,
{
    let x = BigInt::from_slice(if a.negative { Sign::Minus } else { Sign::Plus }, &a.digits);
    x.to_i64()
}

/// The integer part of `a`, truncated toward zero, by `bigdecimal`'s
/// `with_scale_round` to scale 0 with `RoundingMode::Down`.
#[verifier::external_body]
fn dec_to_big(a: &DecNum) -> (r: BigNum)
    requires
        scale_ok(*a),
    ensures
        big_value(r) == dec_trunc(dec_unscaled(*a), a.scale as int),
{
    let x = BigDecimal::new(DecInt::from_slice(if a.negative { DecSign::Minus } else { DecSign::Plus }, &a.digits), a.scale);
    let (i, _) = x.with_scale_round(0, RoundingMode::Down).into_bigint_and_exponent();
    let (sg, ds) = i.to_u32_digits();
    BigNum { negative: sg == DecSign::Minus, digits: ds }
}

/// What converting `v` by `c` gives on heap `h`: the number in the target
/// representation, an error when `v` is no number or does not fit an
/// `int`; left to the caller when floats are involved or a decimal lies
/// beyond the scale limit.
pub open spec fn convert_outcome(c: NumConv, h: Seq<HeapObj>, v: Value) -> Outcome {
    let t = target_of(c);
    match v {
        Value::Int(n) => match t {
            NumTarget::Int => Outcome::Val(Value::Int(n)),
            NumTarget::Float => Outcome::Fail(VmError::Deferred),
            NumTarget::BigInt => Outcome::NewBig(n as int),
            NumTarget::Decimal => Outcome::NewDec(n as int, 0),
        },
        Value::Float(_) => Outcome::Fail(VmError::Deferred),
        Value::Obj(i) => if i < h.len() {
            match h[i as int] {
                HeapObj::BigInt(b) => match t {
                    NumTarget::Int => if in_int_range(big_value(b)) {
                        Outcome::Val(Value::Int(big_value(b) as i64))
                    } else {
                        Outcome::Fail(VmError::Runtime(RuntimeError::IntOutOfRange))
                    },
                    NumTarget::Float => Outcome::Fail(VmError::Deferred),
                    NumTarget::BigInt => Outcome::NewBig(big_value(b)),
                    NumTarget::Decimal => Outcome::NewDec(big_value(b), 0),
                },
                HeapObj::Decimal(d) => match t {
                    NumTarget::Int => if !scale_ok(d) {
                        Outcome::Fail(VmError::Deferred)
                    } else if in_int_range(dec_trunc(dec_unscaled(d), d.scale as int)) {
                        Outcome::Val(Value::Int(dec_trunc(dec_unscaled(d), d.scale as int) as i64))
                    } else {
                        Outcome::Fail(VmError::Runtime(RuntimeError::IntOutOfRange))
                    },
                    NumTarget::Float => Outcome::Fail(VmError::Deferred),
                    NumTarget::BigInt => if !scale_ok(d) {
                        Outcome::Fail(VmError::Deferred)
                    } else {
                        Outcome::NewBig(dec_trunc(dec_unscaled(d), d.scale as int))
                    },
                    NumTarget::Decimal => Outcome::NewDec(dec_unscaled(d), d.scale as int),
                },
                _ => Outcome::Fail(VmError::Runtime(RuntimeError::NotNumeric)),
            }
        } else {
            Outcome::Fail(VmError::Runtime(RuntimeError::NotNumeric))
        },
        _ => Outcome::Fail(VmError::Runtime(RuntimeError::NotNumeric)),
    }
}

/// A copy of a digit vector.
fn copy_digits(ds: &Vec<u32>) -> (r: Vec<u32>)
    ensures
        r@ == ds@,
{
    let mut r: Vec<u32> = Vec::new();
    let mut k: usize = 0;
    while k < ds.len()
        invariant
            k <= ds@.len(),
            r@ == ds@.take(k as int),
        decreases ds@.len() - k,
    {
        r.push(ds[k]);
        assert(ds@.take(k + 1) =~= ds@.take(k as int).push(ds@[k as int]));
        k = k + 1;
    }
    assert(ds@.take(ds@.len() as int) =~= ds@);
    r
}

/// Adds `obj` to the heap, keeping what was there.
fn push_obj(heap: &mut Heap, obj: HeapObj) -> (v: Value)
    requires
        old(heap).wf(),
        crate::heap::obj_ok(obj),
    ensures
        final(heap).wf(),
        v == Value::Obj(old(heap)@.len() as usize),
        final(heap)@ == old(heap)@.push(obj),
        final(heap)@.len() == old(heap)@.len() + 1,
        final(heap)@.take(old(heap)@.len() as int) == old(heap)@,
        final(heap)@.last() == obj,
{
    let ghost before = heap@;
    let v = heap.allocate(obj);
    assert(heap@.take(before.len() as int) =~= before);
    v
}

/// Converts `v` by `c`.
pub fn convert(c: NumConv, v: Value, heap: &mut Heap) -> (r: Result<Value, VmError>)
    requires
        old(heap).wf(),
    ensures
        final(heap).wf(),
        outcome_done(old(heap)@, final(heap)@, convert_outcome(c, old(heap)@, v), r),
        convert_outcome(c, old(heap)@, v) matches Outcome::NewDec(m, sc) ==> (final(heap)@.last() matches HeapObj::Decimal(d)
            && dec_unscaled(d) == m && d.scale == sc),
{
    let t = target(c);
    match v {
        Value::Int(n) => match t {
            NumTarget::Int => Ok(Value::Int(n)),
            NumTarget::Float => Err(VmError::Deferred),
            NumTarget::BigInt => Ok(push_obj(heap, HeapObj::BigInt(big_from_int(n)))),
            NumTarget::Decimal => {
                let b = big_from_int(n);
                Ok(push_obj(heap, HeapObj::Decimal(DecNum { negative: b.negative, digits: b.digits, scale: 0 })))
            },
        },
        Value::Float(_) => Err(VmError::Deferred),
        Value::Obj(i) => {
            let made: HeapObj = match heap.get(i) {
                Some(HeapObj::BigInt(b)) => match t {
                    NumTarget::Int => {
                        return match big_to_i64(b) {
                            Some(n) => Ok(Value::Int(n)),
                            None => Err(VmError::Runtime(out_of_int_range())),
                        };
                    },
                    NumTarget::Float => return Err(VmError::Deferred),
                    NumTarget::BigInt => HeapObj::BigInt(BigNum { negative: b.negative, digits: copy_digits(&b.digits) }),
                    NumTarget::Decimal => HeapObj::Decimal(DecNum { negative: b.negative, digits: copy_digits(&b.digits), scale: 0 }),
                },
                Some(HeapObj::Decimal(d)) => match t {
                    NumTarget::Int => {
                        if !scale_within(d) {
                            return Err(VmError::Deferred);
                        }
                        let w = dec_to_big(d);
                        return match big_to_i64(&w) {
                            Some(n) => Ok(Value::Int(n)),
                            None => Err(VmError::Runtime(out_of_int_range())),
                        };
                    },
                    NumTarget::Float => return Err(VmError::Deferred),
                    NumTarget::BigInt => {
                        if !scale_within(d) {
                            return Err(VmError::Deferred);
                        }
                        HeapObj::BigInt(dec_to_big(d))
                    },
                    NumTarget::Decimal => HeapObj::Decimal(DecNum { negative: d.negative, digits: copy_digits(&d.digits), scale: d.scale }),
                },
                _ => return Err(VmError::Runtime(RuntimeError::NotNumeric)),
            };
            Ok(push_obj(heap, made))
        },
        _ => Err(VmError::Runtime(RuntimeError::NotNumeric)),
    }
}

/// An integer converted to a bigint or a decimal converts back to the same
/// integer.
pub proof fn lemma_int_round_trip(h0: Seq<HeapObj>, h1: Seq<HeapObj>, i: i64, to: NumConv, back: NumConv, r: Result<Value, VmError>)
    requires
        (to == NumConv::IntToBigInt && back == NumConv::BigIntToInt)
            || (to == NumConv::IntToDecimal && back == NumConv::DecimalToInt),
        h0.len() < usize::MAX,
        outcome_done(h0, h1, convert_outcome(to, h0, Value::Int(i)), r),
        convert_outcome(to, h0, Value::Int(i)) matches Outcome::NewDec(m, sc) ==> (h1.last() matches HeapObj::Decimal(d)
            && dec_unscaled(d) == m && d.scale == sc),
    ensures
        r matches Ok(v) && convert_outcome(back, h1, v) == Outcome::Val(Value::Int(i)),
{
    assert(h1[h0.len() as int] == h1.last());
    if to == NumConv::IntToDecimal {
        assert(pow10(0) == 1);
        assert(dec_trunc(i as int, 0) == i as int) by {
            assert(crate::int_ops::abs(i as int) / 1 == crate::int_ops::abs(i as int));
            assert(trunc_div(i as int, 1) == i as int);
        }
    }
}

} // verus!
