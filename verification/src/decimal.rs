//! Decimals: exact base-10 numbers, held as an unscaled integer (a sign and
//! base-2^32 digits) and a scale, the value being the unscaled integer
//! times 10 to the minus scale. Their arithmetic and comparisons are
//! computed by `bigdecimal`.
//!
//! An integer operand joins a decimal operation as a decimal of scale 0.
//! Decimals whose scale lies beyond ±2^30 are not operated on here: the
//! operation is handed back, as is a decimal division, whose rounding rule
//! belongs to the machine's numeric layer.
use vstd::prelude::*;
use bigdecimal::BigDecimal;
use bigdecimal::num_bigint::{BigInt, Sign};
use num_traits::Zero;
use crate::bigint::{BigOp, digits_value};
use crate::int_ops::trunc_rem;
use crate::value::Value;
use crate::heap::{Heap, HeapObj};
use crate::error::{RuntimeError, VmError};
use crate::arith::Outcome;

verus! {

/// A decimal: the unscaled integer's sign and base-2^32 digits (least
/// significant first), and the scale.
#[derive(Debug)]
pub struct DecNum {
    pub negative: bool,
    pub digits: Vec<u32>,
    pub scale: i64,
}

/// The unscaled integer of a decimal.
pub open spec fn dec_unscaled(d: DecNum) -> int {
    if d.negative { -(digits_value(d.digits@) as int) } else { digits_value(d.digits@) as int }
}

/// `10^n`.
pub open spec fn pow10(n: nat) -> int
    decreases n,
{
    if n == 0 { 1 } else { 10 * pow10((n - 1) as nat) }
}

/// The larger of two scales.
pub open spec fn common_scale(s1: int, s2: int) -> int {
    if s1 >= s2 { s1 } else { s2 }
}

/// The unscaled integer of `m·10^-s` at scale `t`, for `t >= s`.
pub open spec fn at_scale(m: int, s: int, t: int) -> int {
    if t >= s { m * pow10((t - s) as nat) } else { m }
}

/// `m1·10^-s1` and `m2·10^-s2` are the same number.
pub open spec fn same_dec(m1: int, s1: int, m2: int, s2: int) -> bool {
    let t = common_scale(s1, s2);
    at_scale(m1, s1, t) == at_scale(m2, s2, t)
}

/// `m1·10^-s1` is less than `m2·10^-s2`.
pub open spec fn dec_below(m1: int, s1: int, m2: int, s2: int) -> bool {
    let t = common_scale(s1, s2);
    at_scale(m1, s1, t) < at_scale(m2, s2, t)
}

/// The largest magnitude of a scale that decimal operations take.
pub open spec fn scale_limit() -> int {
    0x4000_0000
}

/// A decimal whose scale decimal operations take.
pub open spec fn scale_ok(d: DecNum) -> bool {
    -scale_limit() <= d.scale <= scale_limit()
}

/// `a + b`, by `bigdecimal`'s `BigDecimal` addition, which is exact.
#[verifier::external_body]
pub(crate) fn dec_add(a: &DecNum, b: &DecNum) -> (r: DecNum)
    requires
        scale_ok(*a),
        scale_ok(*b),
    ensures
        ({
            let t = common_scale(a.scale as int, b.scale as int);
            same_dec(dec_unscaled(r), r.scale as int,
                at_scale(dec_unscaled(*a), a.scale as int, t) + at_scale(dec_unscaled(*b), b.scale as int, t), t)
        }),
{
    let x = BigDecimal::new(BigInt::from_slice(if a.negative { Sign::Minus } else { Sign::Plus }, &a.digits), a.scale);
    let y = BigDecimal::new(BigInt::from_slice(if b.negative { Sign::Minus } else { Sign::Plus }, &b.digits), b.scale);
    let (i, s) = (x + y).into_bigint_and_exponent();
    let (sg, ds) = i.to_u32_digits();
    DecNum { negative: sg == Sign::Minus, digits: ds, scale: s }
}

/// `a - b`, by `bigdecimal`'s `BigDecimal` subtraction, which is exact.
#[verifier::external_body]
pub(crate) fn dec_sub(a: &DecNum, b: &DecNum) -> (r: DecNum)
    requires
        scale_ok(*a),
        scale_ok(*b),
    ensures
        ({
            let t = common_scale(a.scale as int, b.scale as int);
            same_dec(dec_unscaled(r), r.scale as int,
                at_scale(dec_unscaled(*a), a.scale as int, t) - at_scale(dec_unscaled(*b), b.scale as int, t), t)
        }),
{
    let x = BigDecimal::new(BigInt::from_slice(if a.negative { Sign::Minus } else { Sign::Plus }, &a.digits), a.scale);
    let y = BigDecimal::new(BigInt::from_slice(if b.negative { Sign::Minus } else { Sign::Plus }, &b.digits), b.scale);
    let (i, s) = (x - y).into_bigint_and_exponent();
    let (sg, ds) = i.to_u32_digits();
    DecNum { negative: sg == Sign::Minus, digits: ds, scale: s }
}

/// `a * b`, by `bigdecimal`'s `BigDecimal` multiplication: the product of
/// the unscaled integers at the sum of the scales.
#[verifier::external_body]
pub(crate) fn dec_mul(a: &DecNum, b: &DecNum) -> (r: DecNum)
    requires
        scale_ok(*a),
        scale_ok(*b),
    ensures
        same_dec(dec_unscaled(r), r.scale as int, dec_unscaled(*a) * dec_unscaled(*b), a.scale + b.scale),
{
    let x = BigDecimal::new(BigInt::from_slice(if a.negative { Sign::Minus } else { Sign::Plus }, &a.digits), a.scale);
    let y = BigDecimal::new(BigInt::from_slice(if b.negative { Sign::Minus } else { Sign::Plus }, &b.digits), b.scale);
    let (i, s) = (x * y).into_bigint_and_exponent();
    let (sg, ds) = i.to_u32_digits();
    DecNum { negative: sg == Sign::Minus, digits: ds, scale: s }
}

/// `a % b`, by `bigdecimal`'s `BigDecimal` remainder: both brought to the
/// larger scale, the remainder of the unscaled integers (with the sign of
/// `a`); it panics on a zero divisor.
#[verifier::external_body]
pub(crate) fn dec_rem(a: &DecNum, b: &DecNum) -> (r: DecNum)
    requires
        scale_ok(*a),
        scale_ok(*b),
        dec_unscaled(*b) != 0,
    ensures
        ({
            let t = common_scale(a.scale as int, b.scale as int);
            same_dec(dec_unscaled(r), r.scale as int,
                trunc_rem(at_scale(dec_unscaled(*a), a.scale as int, t), at_scale(dec_unscaled(*b), b.scale as int, t)), t)
        }),
{
    let x = BigDecimal::new(BigInt::from_slice(if a.negative { Sign::Minus } else { Sign::Plus }, &a.digits), a.scale);
    let y = BigDecimal::new(BigInt::from_slice(if b.negative { Sign::Minus } else { Sign::Plus }, &b.digits), b.scale);
    let (i, s) = (x % y).into_bigint_and_exponent();
    let (sg, ds) = i.to_u32_digits();
    DecNum { negative: sg == Sign::Minus, digits: ds, scale: s }
}

/// `-a`, by `bigdecimal`'s `BigDecimal` negation, which keeps the scale.
#[verifier::external_body]
pub(crate) fn dec_neg(a: &DecNum) -> (r: DecNum)
    ensures
        same_dec(dec_unscaled(r), r.scale as int, -dec_unscaled(*a), a.scale as int),
{
    let x = BigDecimal::new(BigInt::from_slice(if a.negative { Sign::Minus } else { Sign::Plus }, &a.digits), a.scale);
    let (i, s) = (-x).into_bigint_and_exponent();
    let (sg, ds) = i.to_u32_digits();
    DecNum { negative: sg == Sign::Minus, digits: ds, scale: s }
}

/// The integer `n` as a decimal of scale 0, by `bigdecimal`'s `From<i64>`.
#[verifier::external_body]
pub(crate) fn dec_from_int(n: i64) -> (r: DecNum)
    ensures
        dec_unscaled(r) == n,
        r.scale == 0,
{
    let (i, s) = BigDecimal::from(n).into_bigint_and_exponent();
    let (sg, ds) = i.to_u32_digits();
    DecNum { negative: sg == Sign::Minus, digits: ds, scale: s }
}

/// Whether `a` is zero, by `bigdecimal`'s `Zero::is_zero`.
#[verifier::external_body]
pub(crate) fn dec_is_zero(a: &DecNum) -> (r: bool)
    ensures
        r == (dec_unscaled(*a) == 0),
{
    let x = BigDecimal::new(BigInt::from_slice(if a.negative { Sign::Minus } else { Sign::Plus }, &a.digits), a.scale);
    x.is_zero()
}

/// Whether `a == b` as numbers: neither is below the other.
pub(crate) fn dec_eq(a: &DecNum, b: &DecNum) -> (r: bool)
    requires
        scale_ok(*a),
        scale_ok(*b),
    ensures
        r == same_dec(dec_unscaled(*a), a.scale as int, dec_unscaled(*b), b.scale as int),
{
    let below = dec_lt(a, b);
    let above = dec_lt(b, a);
    proof {
        let (sa, sb) = (a.scale as int, b.scale as int);
        assert(common_scale(sa, sb) == common_scale(sb, sa));
    }
    !below && !above
}

/// Whether `a < b` as numbers, by `bigdecimal`'s `PartialOrd`.
#[verifier::external_body]
pub(crate) fn dec_lt(a: &DecNum, b: &DecNum) -> (r: bool)
    requires
        scale_ok(*a),
        scale_ok(*b),
    ensures
        r == dec_below(dec_unscaled(*a), a.scale as int, dec_unscaled(*b), b.scale as int),
{
    let x = BigDecimal::new(BigInt::from_slice(if a.negative { Sign::Minus } else { Sign::Plus }, &a.digits), a.scale);
    let y = BigDecimal::new(BigInt::from_slice(if b.negative { Sign::Minus } else { Sign::Plus }, &b.digits), b.scale);
    x < y
}

/// Whether `v` refers to a decimal of heap `h`.
pub open spec fn dec_ref(h: Seq<HeapObj>, v: Value) -> bool {
    v matches Value::Obj(i) && i < h.len() && h[i as int] is Decimal
}

/// The number that `v` stands for as an operand of decimal arithmetic, as
/// an unscaled integer and a scale: an integer at scale 0, or a decimal of
/// the heap whose scale decimal operations take.
pub open spec fn dec_operand(h: Seq<HeapObj>, v: Value) -> Option<(int, int)> {
    match v {
        Value::Int(n) => Some((n as int, 0int)),
        Value::Obj(i) => if i < h.len() {
            match h[i as int] {
                HeapObj::Decimal(d) => if scale_ok(d) { Some((dec_unscaled(d), d.scale as int)) } else { None },
                _ => None,
            }
        } else {
            None
        },
        _ => None,
    }
}

/// What `a op b` gives as decimal arithmetic: `None` when neither operand is
/// a decimal, when one of them is neither an integer nor a decimal that
/// decimal operations take, and for a power, which decimals do not have.
/// A division by a non-zero decimal is handed back.
pub open spec fn dec_binary_outcome(op: BigOp, h: Seq<HeapObj>, a: Value, b: Value) -> Option<Outcome> {
    if !dec_ref(h, a) && !dec_ref(h, b) {
        None
    } else {
        match (dec_operand(h, a), dec_operand(h, b)) {
            (Some((m1, s1)), Some((m2, s2))) => {
                let t = common_scale(s1, s2);
                match op {
                    BigOp::Add => Some(Outcome::NewDec(at_scale(m1, s1, t) + at_scale(m2, s2, t), t)),
                    BigOp::Sub => Some(Outcome::NewDec(at_scale(m1, s1, t) - at_scale(m2, s2, t), t)),
                    BigOp::Mul => Some(Outcome::NewDec(m1 * m2, s1 + s2)),
                    BigOp::Div => Some(if m2 == 0 {
                        Outcome::Fail(VmError::Runtime(RuntimeError::DivisionByZero { modulo: false }))
                    } else {
                        Outcome::Fail(VmError::Deferred)
                    }),
                    BigOp::Rem => Some(if m2 == 0 {
                        Outcome::Fail(VmError::Runtime(RuntimeError::DivisionByZero { modulo: true }))
                    } else {
                        Outcome::NewDec(trunc_rem(at_scale(m1, s1, t), at_scale(m2, s2, t)), t)
                    }),
                    BigOp::Pow => None,
                }
            },
            _ => None,
        }
    }
}

/// A copy of a decimal.
fn copy_dec(d: &DecNum) -> (r: DecNum)
    ensures
        dec_unscaled(r) == dec_unscaled(*d),
        r.scale == d.scale,
{
    let mut digits: Vec<u32> = Vec::new();
    let mut k: usize = 0;
    while k < d.digits.len()
        invariant
            k <= d.digits@.len(),
            digits@ == d.digits@.take(k as int),
        decreases d.digits@.len() - k,
    {
        digits.push(d.digits[k]);
        assert(d.digits@.take(k + 1) =~= d.digits@.take(k as int).push(d.digits@[k as int]));
        k = k + 1;
    }
    assert(d.digits@.take(d.digits@.len() as int) =~= d.digits@);
    DecNum { negative: d.negative, digits, scale: d.scale }
}

/// Whether `v` refers to a decimal.
pub fn is_decimal(v: Value, heap: &Heap) -> (r: bool)
    ensures
        r == dec_ref(heap@, v),
{
    match v {
        Value::Obj(i) => match heap.get(i) {
            Some(HeapObj::Decimal(_)) => true,
            _ => false,
        },
        _ => false,
    }
}

/// Whether decimal operations take `d`.
pub(crate) fn scale_within(d: &DecNum) -> (b: bool)
    ensures
        b == scale_ok(*d),
{
    -0x4000_0000 <= d.scale && d.scale <= 0x4000_0000
}

/// The operand `v` as a decimal, when it is an integer or a decimal whose
/// scale decimal operations take.
fn dec_operand_of(heap: &Heap, v: Value) -> (r: Option<DecNum>)
    ensures
        match dec_operand(heap@, v) {
            Some((m, s)) => r matches Some(d) && dec_unscaled(d) == m && d.scale == s && scale_ok(d),
            None => r is None,
        },
{
    match v {
        Value::Int(n) => Some(dec_from_int(n)),
        Value::Obj(i) => match heap.get(i) {
            Some(HeapObj::Decimal(d)) => {
                if scale_within(d) {
                    Some(copy_dec(d))
                } else {
                    None
                }
            },
            _ => None,
        },
        _ => None,
    }
}

/// Adds decimal `d` to the heap.
fn alloc_dec(heap: &mut Heap, d: DecNum) -> (v: Value)
    requires
        old(heap).wf(),
    ensures
        final(heap).wf(),
        v == Value::Obj(old(heap)@.len() as usize),
        final(heap)@.len() == old(heap)@.len() + 1,
        final(heap)@.take(old(heap)@.len() as int) == old(heap)@,
        final(heap)@.last() matches HeapObj::Decimal(x) && dec_unscaled(x) == dec_unscaled(d) && x.scale == d.scale,
{
    let ghost before = heap@;
    let v = heap.allocate(HeapObj::Decimal(d));
    assert(heap@.take(before.len() as int) =~= before);
    v
}

/// `a op b` when a decimal is involved and the other operand is a decimal
/// or an integer; `None` hands the operation back.
pub fn dec_binary(op: BigOp, a: Value, b: Value, heap: &mut Heap) -> (r: Option<Result<Value, VmError>>)
    requires
        old(heap).wf(),
    ensures
        final(heap).wf(),
        match dec_binary_outcome(op, old(heap)@, a, b) {
            Some(o) => r matches Some(res) && crate::arith::outcome_done(old(heap)@, final(heap)@, o, res),
            None => r is None && final(heap)@ == old(heap)@,
        },
{
    if !is_decimal(a, heap) && !is_decimal(b, heap) {
        return None;
    }
    if op == BigOp::Pow {
        return None;
    }
    let x = match dec_operand_of(heap, a) {
        Some(x) => x,
        None => return None,
    };
    let y = match dec_operand_of(heap, b) {
        Some(y) => y,
        None => return None,
    };
    let z = match op {
        BigOp::Add => dec_add(&x, &y),
        BigOp::Sub => dec_sub(&x, &y),
        BigOp::Mul => dec_mul(&x, &y),
        BigOp::Div => {
            if dec_is_zero(&y) {
                return Some(Err(VmError::Runtime(RuntimeError::DivisionByZero { modulo: false })));
            }
            return Some(Err(VmError::Deferred));
        },
        _ => {
            if dec_is_zero(&y) {
                return Some(Err(VmError::Runtime(RuntimeError::DivisionByZero { modulo: true })));
            }
            dec_rem(&x, &y)
        },
    };
    Some(Ok(alloc_dec(heap, z)))
}

/// `-a` for a decimal `a`; `None` for anything else.
pub fn dec_negate(a: Value, heap: &mut Heap) -> (r: Option<Value>)
    requires
        old(heap).wf(),
    ensures
        final(heap).wf(),
        dec_ref(old(heap)@, a) ==> r == Some(Value::Obj(old(heap)@.len() as usize))
            && final(heap)@.len() == old(heap)@.len() + 1
            && final(heap)@.take(old(heap)@.len() as int) == old(heap)@
            && (final(heap)@.last() matches HeapObj::Decimal(x) && match old(heap)@[a->Obj_0 as int] {
                HeapObj::Decimal(d) => same_dec(dec_unscaled(x), x.scale as int, -dec_unscaled(d), d.scale as int),
                _ => false,
            }),
        !dec_ref(old(heap)@, a) ==> r is None && final(heap)@ == old(heap)@,
{
    match a {
        Value::Obj(i) => {
            let z = match heap.get(i) {
                Some(HeapObj::Decimal(d)) => dec_neg(d),
                _ => return None,
            };
            Some(alloc_dec(heap, z))
        },
        _ => None,
    }
}

} // verus!
