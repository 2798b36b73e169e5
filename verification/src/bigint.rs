//! Arbitrary-precision integers: the `bigint` values of the machine, held as
//! a sign and base-2^32 digits, with their arithmetic computed by
//! `num-bigint`.
use vstd::prelude::*;
use num_bigint::{BigInt, Sign};
use num_traits::{Pow, Signed, ToPrimitive};
use crate::int_ops::{trunc_div, trunc_rem, int_pow};
use crate::value::Value;
use crate::heap::{Heap, HeapObj};
use crate::error::{RuntimeError, VmError};
use crate::arith::Outcome;

verus! {

/// An arbitrary-precision integer: a sign and the magnitude's base-2^32
/// digits, least significant first.
#[derive(Debug)]
pub struct BigNum {
    pub negative: bool,
    pub digits: Vec<u32>,
}

/// The number that little-endian base-2^32 digits spell.
pub open spec fn digits_value(ds: Seq<u32>) -> nat
    decreases ds.len(),
{
    if ds.len() == 0 {
        0
    } else {
        ds[0] as nat + 0x1_0000_0000 * digits_value(ds.drop_first())
    }
}

/// The integer that a `BigNum` stands for.
pub open spec fn big_value(b: BigNum) -> int {
    if b.negative { -(digits_value(b.digits@) as int) } else { digits_value(b.digits@) as int }
}

/// `a + b`, by `num_bigint`'s `BigInt` addition.
#[verifier::external_body]
pub(crate) fn big_add(a: &BigNum, b: &BigNum) -> (r: BigNum)
    ensures
        big_value(r) == big_value(*a) + big_value(*b),
{
    let x = BigInt::from_slice(if a.negative { Sign::Minus } else { Sign::Plus }, &a.digits);
    let y = BigInt::from_slice(if b.negative { Sign::Minus } else { Sign::Plus }, &b.digits);
    let (s, d) = (x + y).to_u32_digits();
    BigNum { negative: s == Sign::Minus, digits: d }
}

/// `a - b`, by `num_bigint`'s `BigInt` subtraction.
#[verifier::external_body]
pub(crate) fn big_sub(a: &BigNum, b: &BigNum) -> (r: BigNum)
    ensures
        big_value(r) == big_value(*a) - big_value(*b),
{
    let x = BigInt::from_slice(if a.negative { Sign::Minus } else { Sign::Plus }, &a.digits);
    let y = BigInt::from_slice(if b.negative { Sign::Minus } else { Sign::Plus }, &b.digits);
    let (s, d) = (x - y).to_u32_digits();
    BigNum { negative: s == Sign::Minus, digits: d }
}

/// `a * b`, by `num_bigint`'s `BigInt` multiplication.
#[verifier::external_body]
pub(crate) fn big_mul(a: &BigNum, b: &BigNum) -> (r: BigNum)
    ensures
        big_value(r) == big_value(*a) * big_value(*b),
{
    let x = BigInt::from_slice(if a.negative { Sign::Minus } else { Sign::Plus }, &a.digits);
    let y = BigInt::from_slice(if b.negative { Sign::Minus } else { Sign::Plus }, &b.digits);
    let (s, d) = (x * y).to_u32_digits();
    BigNum { negative: s == Sign::Minus, digits: d }
}

/// `a / b` truncated toward zero, by `num_bigint`'s `BigInt` division, which
/// panics on a zero divisor.
#[verifier::external_body]
pub(crate) fn big_div(a: &BigNum, b: &BigNum) -> (r: BigNum)
    requires
        big_value(*b) != 0,
    ensures
        big_value(r) == trunc_div(big_value(*a), big_value(*b)),
{
    let x = BigInt::from_slice(if a.negative { Sign::Minus } else { Sign::Plus }, &a.digits);
    let y = BigInt::from_slice(if b.negative { Sign::Minus } else { Sign::Plus }, &b.digits);
    let (s, d) = (x / y).to_u32_digits();
    BigNum { negative: s == Sign::Minus, digits: d }
}

/// `a % b` with the sign of `a`, by `num_bigint`'s `BigInt` remainder, which
/// panics on a zero divisor.
#[verifier::external_body]
pub(crate) fn big_rem(a: &BigNum, b: &BigNum) -> (r: BigNum)
    requires
        big_value(*b) != 0,
    ensures
        big_value(r) == trunc_rem(big_value(*a), big_value(*b)),
{
    let x = BigInt::from_slice(if a.negative { Sign::Minus } else { Sign::Plus }, &a.digits);
    let y = BigInt::from_slice(if b.negative { Sign::Minus } else { Sign::Plus }, &b.digits);
    let (s, d) = (x % y).to_u32_digits();
    BigNum { negative: s == Sign::Minus, digits: d }
}

/// `a ** e`, by `num_traits::Pow<u32>` for `&BigInt`.
#[verifier::external_body]
pub(crate) fn big_pow(a: &BigNum, e: u32) -> (r: BigNum)
    ensures
        big_value(r) == int_pow(big_value(*a), e as nat),
{
    let x = BigInt::from_slice(if a.negative { Sign::Minus } else { Sign::Plus }, &a.digits);
    let (s, d) = Pow::pow(&x, e).to_u32_digits();
    BigNum { negative: s == Sign::Minus, digits: d }
}

/// `-a`, by `num_bigint`'s `BigInt` negation.
#[verifier::external_body]
pub(crate) fn big_neg(a: &BigNum) -> (r: BigNum)
    ensures
        big_value(r) == -big_value(*a),
{
    let x = BigInt::from_slice(if a.negative { Sign::Minus } else { Sign::Plus }, &a.digits);
    let (s, d) = (-x).to_u32_digits();
    BigNum { negative: s == Sign::Minus, digits: d }
}

/// The integer `n` as a `BigNum`, by `num_bigint`'s `From<i64>` for `BigInt`.
#[verifier::external_body]
pub(crate) fn big_from_int(n: i64) -> (r: BigNum)
    ensures
        big_value(r) == n,
{
    let (s, d) = BigInt::from(n).to_u32_digits();
    BigNum { negative: s == Sign::Minus, digits: d }
}

/// Whether `a < 0`, by `num_traits::Signed::is_negative` for `BigInt`.
#[verifier::external_body]
pub(crate) fn big_is_negative(a: &BigNum) -> (r: bool)
    ensures
        r == (big_value(*a) < 0),
{
    let x = BigInt::from_slice(if a.negative { Sign::Minus } else { Sign::Plus }, &a.digits);
    x.is_negative()
}

/// `a` as a `u32` when it is one, by `num_traits::ToPrimitive::to_u32` for
/// `BigInt`.
#[verifier::external_body]
pub(crate) fn big_to_u32(a: &BigNum) -> (r: Option<u32>)
    ensures
        0 <= big_value(*a) <= u32::MAX ==> r == Some(big_value(*a) as u32),
        !(0 <= big_value(*a) <= u32::MAX) ==> r is None,
{
    let x = BigInt::from_slice(if a.negative { Sign::Minus } else { Sign::Plus }, &a.digits);
    x.to_u32()
}

/// Whether `a == b`, by `num_bigint`'s `PartialEq` for `BigInt`.
#[verifier::external_body]
pub(crate) fn big_eq(a: &BigNum, b: &BigNum) -> (r: bool)
    ensures
        r == (big_value(*a) == big_value(*b)),
{
    let x = BigInt::from_slice(if a.negative { Sign::Minus } else { Sign::Plus }, &a.digits);
    let y = BigInt::from_slice(if b.negative { Sign::Minus } else { Sign::Plus }, &b.digits);
    x == y
}

/// Whether `a < b`, by `num_bigint`'s `PartialOrd` for `BigInt`.
#[verifier::external_body]
pub(crate) fn big_lt(a: &BigNum, b: &BigNum) -> (r: bool)
    ensures
        r == (big_value(*a) < big_value(*b)),
{
    let x = BigInt::from_slice(if a.negative { Sign::Minus } else { Sign::Plus }, &a.digits);
    let y = BigInt::from_slice(if b.negative { Sign::Minus } else { Sign::Plus }, &b.digits);
    x < y
}

/// The operations on bigints.
#[derive(Clone, Copy, PartialEq, Eq, Structural, Debug)]
pub enum BigOp {
    Add,
    Sub,
    Mul,
    Div,
    Rem,
    Pow,
}

/// Whether `v` refers to a bigint of heap `h`.
pub open spec fn big_ref(h: Seq<HeapObj>, v: Value) -> bool {
    v matches Value::Obj(i) && i < h.len() && h[i as int] is BigInt
}

/// The integer that `v` stands for as an operand of bigint arithmetic: an
/// integer, or a bigint of the heap.
pub open spec fn big_operand(h: Seq<HeapObj>, v: Value) -> Option<int> {
    match v {
        Value::Int(n) => Some(n as int),
        Value::Obj(i) => if i < h.len() {
            match h[i as int] {
                HeapObj::BigInt(b) => Some(big_value(b)),
                _ => None,
            }
        } else {
            None
        },
        _ => None,
    }
}

/// `x op y` exactly: division truncates, the remainder takes the dividend's
/// sign, and a power takes an exponent from zero to `u32::MAX`.
pub open spec fn big_result(op: BigOp, x: int, y: int) -> Result<int, RuntimeError> {
    match op {
        BigOp::Add => Ok(x + y),
        BigOp::Sub => Ok(x - y),
        BigOp::Mul => Ok(x * y),
        BigOp::Div => if y == 0 {
            Err(RuntimeError::DivisionByZero { modulo: false })
        } else {
            Ok(trunc_div(x, y))
        },
        BigOp::Rem => if y == 0 {
            Err(RuntimeError::DivisionByZero { modulo: true })
        } else {
            Ok(trunc_rem(x, y))
        },
        BigOp::Pow => if y < 0 {
            Err(RuntimeError::NegativeExponent)
        } else if y > u32::MAX {
            Err(RuntimeError::ExponentTooLarge)
        } else {
            Ok(int_pow(x, y as nat))
        },
    }
}

/// What `a op b` gives as bigint arithmetic: `None` when neither operand is
/// a bigint, or when one of them is neither an integer nor a bigint.
pub open spec fn big_binary_outcome(op: BigOp, h: Seq<HeapObj>, a: Value, b: Value) -> Option<Outcome> {
    if !big_ref(h, a) && !big_ref(h, b) {
        None
    } else {
        match (big_operand(h, a), big_operand(h, b)) {
            (Some(x), Some(y)) => Some(match big_result(op, x, y) {
                Ok(n) => Outcome::NewBig(n),
                Err(e) => Outcome::Fail(VmError::Runtime(e)),
            }),
            _ => None,
        }
    }
}

/// A copy of a bigint.
fn copy_big(b: &BigNum) -> (r: BigNum)
    ensures
        big_value(r) == big_value(*b),
{
    let mut digits: Vec<u32> = Vec::new();
    let mut k: usize = 0;
    while k < b.digits.len()
        invariant
            k <= b.digits@.len(),
            digits@ == b.digits@.take(k as int),
        decreases b.digits@.len() - k,
    {
        digits.push(b.digits[k]);
        assert(b.digits@.take(k + 1) =~= b.digits@.take(k as int).push(b.digits@[k as int]));
        k = k + 1;
    }
    assert(b.digits@.take(b.digits@.len() as int) =~= b.digits@);
    BigNum { negative: b.negative, digits }
}

/// The operand `v` as a bigint, when it is an integer or a bigint.
fn operand_of(heap: &Heap, v: Value) -> (r: Option<BigNum>)
    ensures
        match big_operand(heap@, v) {
            Some(n) => r matches Some(b) && big_value(b) == n,
            None => r is None,
        },
{
    match v {
        Value::Int(n) => Some(big_from_int(n)),
        Value::Obj(i) => match heap.get(i) {
            Some(HeapObj::BigInt(b)) => Some(copy_big(b)),
            _ => None,
        },
        _ => None,
    }
}

/// Whether `v` refers to a bigint.
pub fn is_bigint(v: Value, heap: &Heap) -> (r: bool)
    ensures
        r == big_ref(heap@, v),
{
    match v {
        Value::Obj(i) => match heap.get(i) {
            Some(HeapObj::BigInt(_)) => true,
            _ => false,
        },
        _ => false,
    }
}

/// Adds bigint `b` to the heap.
fn alloc_big(heap: &mut Heap, b: BigNum) -> (v: Value)
    requires
        old(heap).wf(),
    ensures
        final(heap).wf(),
        v == Value::Obj(old(heap)@.len() as usize),
        final(heap)@.len() == old(heap)@.len() + 1,
        final(heap)@.take(old(heap)@.len() as int) == old(heap)@,
        final(heap)@.last() matches HeapObj::BigInt(x) && big_value(x) == big_value(b),
{
    let ghost before = heap@;
    let v = heap.allocate(HeapObj::BigInt(b));
    assert(heap@.take(before.len() as int) =~= before);
    v
}

/// `a op b` when a bigint is involved and the other operand is a bigint or
/// an integer, which widens exactly; `None` hands the operation back.
pub fn big_binary(op: BigOp, a: Value, b: Value, heap: &mut Heap) -> (r: Option<Result<Value, VmError>>)
    requires
        old(heap).wf(),
    ensures
        final(heap).wf(),
        match big_binary_outcome(op, old(heap)@, a, b) {
            Some(o) => r matches Some(res) && crate::arith::outcome_done(old(heap)@, final(heap)@, o, res),
            None => r is None && final(heap)@ == old(heap)@,
        },
{
    if !is_bigint(a, heap) && !is_bigint(b, heap) {
        return None;
    }
    let x = match operand_of(heap, a) {
        Some(x) => x,
        None => return None,
    };
    let y = match operand_of(heap, b) {
        Some(y) => y,
        None => return None,
    };
    let z = match op {
        BigOp::Add => big_add(&x, &y),
        BigOp::Sub => big_sub(&x, &y),
        BigOp::Mul => big_mul(&x, &y),
        BigOp::Div => {
            if big_value_is_zero(&y) {
                return Some(Err(VmError::Runtime(RuntimeError::DivisionByZero { modulo: false })));
            }
            big_div(&x, &y)
        },
        BigOp::Rem => {
            if big_value_is_zero(&y) {
                return Some(Err(VmError::Runtime(RuntimeError::DivisionByZero { modulo: true })));
            }
            big_rem(&x, &y)
        },
        BigOp::Pow => {
            if big_is_negative(&y) {
                return Some(Err(VmError::Runtime(RuntimeError::NegativeExponent)));
            }
            match big_to_u32(&y) {
                Some(e) => big_pow(&x, e),
                None => return Some(Err(VmError::Runtime(RuntimeError::ExponentTooLarge))),
            }
        },
    };
    Some(Ok(alloc_big(heap, z)))
}

/// `-a` for a bigint `a`; `None` for anything else.
pub fn big_negate(a: Value, heap: &mut Heap) -> (r: Option<Value>)
    requires
        old(heap).wf(),
    ensures
        final(heap).wf(),
        big_ref(old(heap)@, a) ==> r == Some(Value::Obj(old(heap)@.len() as usize))
            && final(heap)@.len() == old(heap)@.len() + 1
            && final(heap)@.take(old(heap)@.len() as int) == old(heap)@
            && (final(heap)@.last() matches HeapObj::BigInt(x) && big_value(x) == -big_operand(old(heap)@, a)->0),
        !big_ref(old(heap)@, a) ==> r is None && final(heap)@ == old(heap)@,
{
    if !is_bigint(a, heap) {
        return None;
    }
    let x = match operand_of(heap, a) {
        Some(x) => x,
        None => return None,
    };
    let z = big_neg(&x);
    Some(alloc_big(heap, z))
}

/// Digits that are all zero spell zero.
proof fn lemma_zero_digits(ds: Seq<u32>)
    requires
        forall|i: int| 0 <= i < ds.len() ==> ds[i] == 0,
    ensures
        digits_value(ds) == 0,
    decreases ds.len(),
{
    if ds.len() > 0 {
        assert forall|i: int| 0 <= i < ds.drop_first().len() implies ds.drop_first()[i] == 0 by {
            assert(ds.drop_first()[i] == ds[i + 1]);
        }
        lemma_zero_digits(ds.drop_first());
    }
}

/// Digits with a non-zero digit spell a non-zero number.
proof fn lemma_nonzero_digit(ds: Seq<u32>, k: int)
    requires
        0 <= k < ds.len(),
        ds[k] != 0,
    ensures
        digits_value(ds) > 0,
    decreases ds.len(),
{
    if k > 0 {
        assert(ds.drop_first()[k - 1] == ds[k]);
        lemma_nonzero_digit(ds.drop_first(), k - 1);
    }
}

/// Whether a bigint is zero.
fn big_value_is_zero(b: &BigNum) -> (r: bool)
    ensures
        r == (big_value(*b) == 0),
{
    let mut k: usize = 0;
    while k < b.digits.len()
        invariant
            k <= b.digits@.len(),
            forall|i: int| 0 <= i < k ==> b.digits@[i] == 0,
        decreases b.digits@.len() - k,
    {
        if b.digits[k] != 0 {
            proof {
                lemma_nonzero_digit(b.digits@, k as int);
            }
            return false;
        }
        k = k + 1;
    }
    proof {
        lemma_zero_digits(b.digits@);
    }
    true
}

} // verus!
