//! The arithmetic opcodes on values. Two integers compute exactly and fault
//! on overflow; two strings concatenate; float arithmetic, and the
//! conversions of other operands to numbers or strings, are left to the
//! caller.
use vstd::prelude::*;
use crate::value::Value;
use crate::heap::{Heap, HeapObj};
use crate::error::{IntOp, RuntimeError, VmError};
use crate::bigint::{BigOp, big_value, big_binary_outcome, big_binary, big_negate};
use crate::decimal::{dec_unscaled, same_dec, dec_binary_outcome, dec_binary, dec_negate};
use crate::int_ops::{
    IntDivFault, add_int, sub_int, mul_int, neg_int, div_int, rem_int, pow_int, in_int_range,
    trunc_div, trunc_rem, int_pow,
};

verus! {

/// The integer-overflow error for `a op b`.
pub fn overflow(op: IntOp, a: i64, b: i64) -> (e: RuntimeError)
    ensures
        e == (RuntimeError::IntegerOverflow { op, lhs: a, rhs: b }),
{
    RuntimeError::IntegerOverflow { op, lhs: a, rhs: b }
}

/// The integer-overflow error for `-a`.
pub fn overflow_neg(a: i64) -> (e: RuntimeError)
    ensures
        e == (RuntimeError::NegationOverflow { operand: a }),
{
    RuntimeError::NegationOverflow { operand: a }
}

/// The error that an integer division or remainder fault raises: a division
/// by zero (named a modulo by zero for `%`), or an overflow.
pub open spec fn div_fault_error(f: IntDivFault, op: IntOp, a: i64, b: i64) -> RuntimeError {
    match f {
        IntDivFault::DivisionByZero => RuntimeError::DivisionByZero { modulo: op == IntOp::Rem },
        IntDivFault::Overflow => RuntimeError::IntegerOverflow { op, lhs: a, rhs: b },
    }
}

/// The error of an integer division or remainder fault.
pub fn int_div_fault(f: IntDivFault, op: IntOp, a: i64, b: i64) -> (e: RuntimeError)
    ensures
        e == div_fault_error(f, op, a, b),
{
    match f {
        IntDivFault::DivisionByZero => RuntimeError::DivisionByZero {
            modulo: match op {
                IntOp::Rem => true,
                _ => false,
            },
        },
        IntDivFault::Overflow => overflow(op, a, b),
    }
}

/// `x op y` on two integers, for the operators that only overflow.
pub open spec fn checked_result(op: IntOp, x: i64, y: i64, exact: int) -> Result<Value, VmError> {
    if in_int_range(exact) {
        Ok(Value::Int(exact as i64))
    } else {
        Err(VmError::Runtime(RuntimeError::IntegerOverflow { op, lhs: x, rhs: y }))
    }
}

/// What an arithmetic operation gives: a value; a new string or bigint,
/// allocated at the end of the heap and referred to by the result; or an
/// error.
pub enum Outcome {
    Val(Value),
    NewStr(Seq<char>),
    NewBig(int),
    /// A new decimal of the number `m·10^-s`.
    NewDec(int, int),
    Fail(VmError),
}

/// A result as an outcome that allocates nothing.
pub open spec fn plain(r: Result<Value, VmError>) -> Outcome {
    match r {
        Ok(v) => Outcome::Val(v),
        Err(e) => Outcome::Fail(e),
    }
}

/// The value an outcome gives on heap `h`.
pub open spec fn outcome_result(h: Seq<HeapObj>, o: Outcome) -> Result<Value, VmError> {
    match o {
        Outcome::Val(v) => Ok(v),
        Outcome::NewStr(_) => Ok(Value::Obj(h.len() as usize)),
        Outcome::NewBig(_) => Ok(Value::Obj(h.len() as usize)),
        Outcome::NewDec(_, _) => Ok(Value::Obj(h.len() as usize)),
        Outcome::Fail(e) => Err(e),
    }
}

/// An operation with outcome `o` took heap `old_h` to `new_h` and gave `r`.
pub open spec fn outcome_done(old_h: Seq<HeapObj>, new_h: Seq<HeapObj>, o: Outcome, r: Result<Value, VmError>) -> bool {
    &&& r == outcome_result(old_h, o)
    &&& match o {
        Outcome::NewStr(s) => new_h.len() == old_h.len() + 1
            && new_h.take(old_h.len() as int) == old_h
            && (new_h.last() matches HeapObj::Str(cs) && cs@ == s),
        Outcome::NewBig(n) => new_h.len() == old_h.len() + 1
            && new_h.take(old_h.len() as int) == old_h
            && (new_h.last() matches HeapObj::BigInt(b) && big_value(b) == n),
        Outcome::NewDec(m, sc) => new_h.len() == old_h.len() + 1
            && new_h.take(old_h.len() as int) == old_h
            && (new_h.last() matches HeapObj::Decimal(d) && same_dec(dec_unscaled(d), d.scale as int, m, sc)),
        _ => new_h == old_h,
    }
}

/// The string that `v` refers to, if it does.
pub open spec fn str_of(h: Seq<HeapObj>, v: Value) -> Option<Seq<char>> {
    match v {
        Value::Obj(i) => if i < h.len() {
            match h[i as int] {
                HeapObj::Str(cs) => Some(cs@),
                _ => None,
            }
        } else {
            None
        },
        _ => None,
    }
}

/// The text of `v` when a string is joined with it: `null`, `true` and
/// `false`, an integer in decimal, a string or a character as itself.
/// `None` for a float, whose text is left to the caller, and for the other
/// kinds of value, whose text the library does not write.
pub open spec fn value_text(h: Seq<HeapObj>, v: Value) -> Option<Seq<char>> {
    match v {
        Value::Null => Some(seq!['n', 'u', 'l', 'l']),
        Value::Bool(b) => Some(if b { seq!['t', 'r', 'u', 'e'] } else { seq!['f', 'a', 'l', 's', 'e'] }),
        Value::Int(n) => Some(crate::json::int_text(n as int)),
        Value::Float(_) => None,
        Value::Obj(i) => if i < h.len() {
            match h[i as int] {
                HeapObj::Str(cs) => Some(cs@),
                HeapObj::Char(c) => Some(seq![c]),
                _ => None,
            }
        } else {
            None
        },
    }
}

/// The text of `v` as [`value_text`] gives it.
pub(crate) fn text_of(heap: &Heap, v: Value) -> (r: Option<Vec<char>>)
    ensures
        match value_text(heap@, v) {
            Some(t) => r matches Some(x) && x@ == t,
            None => r is None,
        },
{
    match v {
        Value::Null => Some(vec!['n', 'u', 'l', 'l']),
        Value::Bool(b) => if b { Some(vec!['t', 'r', 'u', 'e']) } else { Some(vec!['f', 'a', 'l', 's', 'e']) },
        Value::Int(n) => {
            let mut out: Vec<char> = Vec::new();
            crate::json::write_int(n, &mut out);
            assert(out@ =~= crate::json::int_text(n as int));
            Some(out)
        },
        Value::Float(_) => None,
        Value::Obj(i) => match heap.get(i) {
            Some(HeapObj::Str(cs)) => Some(crate::collections::copy_chars(cs)),
            Some(HeapObj::Char(c)) => Some(vec![*c]),
            _ => None,
        },
    }
}

/// `x` followed by `y`.
fn joined(x: &Vec<char>, y: &Vec<char>) -> (r: Vec<char>)
    ensures
        r@ == x@ + y@,
{
    let mut out = crate::collections::copy_chars(x);
    let mut k: usize = 0;
    let ghost start = out@;
    while k < y.len()
        invariant
            k <= y@.len(),
            out@ == start + y@.take(k as int),
            start == x@,
        decreases y@.len() - k,
    {
        out.push(y[k]);
        assert(y@.take(k + 1) =~= y@.take(k as int).push(y@[k as int]));
        k = k + 1;
    }
    assert(y@.take(y@.len() as int) =~= y@);
    out
}

/// What `a + b` gives on heap `h`: the checked sum of two integers; a new
/// string when either operand is a string, joining the two texts (see
/// [`value_text`]); the exact sum when a bigint or a decimal is involved.
/// A string with anything else converts that to a string, which is left to
/// the caller, as is float arithmetic.
pub open spec fn add_outcome(h: Seq<HeapObj>, a: Value, b: Value) -> Outcome {
    match (a, b) {
        (Value::Int(x), Value::Int(y)) => plain(checked_result(IntOp::Add, x, y, x + y)),
        _ => match (str_of(h, a), str_of(h, b)) {
            (Some(x), Some(y)) => Outcome::NewStr(x + y),
            (None, None) => match big_binary_outcome(BigOp::Add, h, a, b) {
                Some(o) => o,
                None => match dec_binary_outcome(BigOp::Add, h, a, b) {
                    Some(o) => o,
                    None => Outcome::Fail(VmError::Deferred),
                },
            },
            (Some(x), None) => match value_text(h, b) {
                Some(t) => Outcome::NewStr(x + t),
                None => Outcome::Fail(VmError::Deferred),
            },
            (None, Some(y)) => match value_text(h, a) {
                Some(t) => Outcome::NewStr(t + y),
                None => Outcome::Fail(VmError::Deferred),
            },
        },
    }
}

/// What an operation gives that only integers and bigints have, given its
/// result on two integers.
pub open spec fn numeric_outcome(op: BigOp, h: Seq<HeapObj>, a: Value, b: Value, on_ints: Result<Value, VmError>) -> Outcome {
    match (a, b) {
        (Value::Int(_), Value::Int(_)) => plain(on_ints),
        _ => match big_binary_outcome(op, h, a, b) {
            Some(o) => o,
            None => match dec_binary_outcome(op, h, a, b) {
                Some(o) => o,
                None => Outcome::Fail(VmError::Deferred),
            },
        },
    }
}

/// What `a - b` gives.
pub open spec fn sub_outcome(h: Seq<HeapObj>, a: Value, b: Value) -> Outcome {
    numeric_outcome(BigOp::Sub, h, a, b, match (a, b) {
        (Value::Int(x), Value::Int(y)) => checked_result(IntOp::Sub, x, y, x - y),
        _ => Err(VmError::Deferred),
    })
}

/// What `a * b` gives.
pub open spec fn mul_outcome(h: Seq<HeapObj>, a: Value, b: Value) -> Outcome {
    numeric_outcome(BigOp::Mul, h, a, b, match (a, b) {
        (Value::Int(x), Value::Int(y)) => checked_result(IntOp::Mul, x, y, x * y),
        _ => Err(VmError::Deferred),
    })
}

/// What `a / b` gives.
pub open spec fn div_outcome(h: Seq<HeapObj>, a: Value, b: Value) -> Outcome {
    numeric_outcome(BigOp::Div, h, a, b, match (a, b) {
        (Value::Int(x), Value::Int(y)) => int_division(IntOp::Div, x, y),
        _ => Err(VmError::Deferred),
    })
}

/// What `a % b` gives.
pub open spec fn modulo_outcome(h: Seq<HeapObj>, a: Value, b: Value) -> Outcome {
    numeric_outcome(BigOp::Rem, h, a, b, match (a, b) {
        (Value::Int(x), Value::Int(y)) => int_division(IntOp::Rem, x, y),
        _ => Err(VmError::Deferred),
    })
}

/// What `a ** b` gives.
pub open spec fn pow_outcome(h: Seq<HeapObj>, a: Value, b: Value) -> Outcome {
    numeric_outcome(BigOp::Pow, h, a, b, match (a, b) {
        (Value::Int(x), Value::Int(y)) => int_power(x, y),
        _ => Err(VmError::Deferred),
    })
}

/// `a + b`: checked integer addition; a new string when either operand is
/// a string, joining the two texts; or exact addition when a bigint or a
/// decimal is involved.
pub fn add(a: Value, b: Value, heap: &mut Heap) -> (r: Result<Value, VmError>)
    requires
        old(heap).wf(),
    ensures
        final(heap).wf(),
        outcome_done(old(heap)@, final(heap)@, add_outcome(old(heap)@, a, b), r),
{
    if let (Value::Int(x), Value::Int(y)) = (a, b) {
        return match add_int(x, y) {
            Some(s) => Ok(Value::Int(s)),
            None => Err(VmError::Runtime(overflow(IntOp::Add, x, y))),
        };
    }
    let a_str = string_at(heap, a);
    let b_str = string_at(heap, b);
    if a_str.is_none() && b_str.is_none() {
        return match big_binary(BigOp::Add, a, b, heap) {
            Some(res) => res,
            None => match dec_binary(BigOp::Add, a, b, heap) {
                Some(res) => res,
                None => Err(VmError::Deferred),
            },
        };
    }
    let text: Vec<char> = match (a_str, b_str) {
        (Some(x), Some(y)) => joined(x, y),
        (Some(x), None) => match text_of(heap, b) {
            Some(t) => joined(x, &t),
            None => return Err(VmError::Deferred),
        },
        (None, Some(y)) => match text_of(heap, a) {
            Some(t) => joined(&t, y),
            None => return Err(VmError::Deferred),
        },
        _ => return Err(VmError::Deferred),
    };
    let ghost before = heap@;
    let v = heap.allocate(HeapObj::Str(text));
    assert(heap@.take(before.len() as int) =~= before);
    Ok(v)
}

/// The string that `v` refers to, if it does.
fn string_at<'h>(heap: &'h Heap, v: Value) -> (r: Option<&'h Vec<char>>)
    ensures
        r matches Some(cs) ==> str_of(heap@, v) == Some(cs@),
        r is None ==> str_of(heap@, v) is None,
{
    match v {
        Value::Obj(i) => match heap.get(i) {
            Some(HeapObj::Str(cs)) => Some(cs),
            _ => None,
        },
        _ => None,
    }
}

/// `a - b`: checked on two integers, exact when a bigint or a decimal is
/// involved.
pub fn sub(a: Value, b: Value, heap: &mut Heap) -> (r: Result<Value, VmError>)
    requires
        old(heap).wf(),
    ensures
        final(heap).wf(),
        outcome_done(old(heap)@, final(heap)@, sub_outcome(old(heap)@, a, b), r),
{
    if let (Value::Int(x), Value::Int(y)) = (a, b) {
        return match sub_int(x, y) {
            Some(s) => Ok(Value::Int(s)),
            None => Err(VmError::Runtime(overflow(IntOp::Sub, x, y))),
        };
    }
    match big_binary(BigOp::Sub, a, b, heap) {
        Some(res) => res,
        None => match dec_binary(BigOp::Sub, a, b, heap) {
            Some(res) => res,
            None => Err(VmError::Deferred),
        },
    }
}

/// `a * b`: checked on two integers, exact when a bigint or a decimal is
/// involved.
pub fn mul(a: Value, b: Value, heap: &mut Heap) -> (r: Result<Value, VmError>)
    requires
        old(heap).wf(),
    ensures
        final(heap).wf(),
        outcome_done(old(heap)@, final(heap)@, mul_outcome(old(heap)@, a, b), r),
{
    if let (Value::Int(x), Value::Int(y)) = (a, b) {
        return match mul_int(x, y) {
            Some(s) => Ok(Value::Int(s)),
            None => Err(VmError::Runtime(overflow(IntOp::Mul, x, y))),
        };
    }
    match big_binary(BigOp::Mul, a, b, heap) {
        Some(res) => res,
        None => match dec_binary(BigOp::Mul, a, b, heap) {
            Some(res) => res,
            None => Err(VmError::Deferred),
        },
    }
}

/// `x / y` or `x % y` on two integers: truncated quotient or remainder, or the fault.
pub open spec fn int_division(op: IntOp, x: i64, y: i64) -> Result<Value, VmError> {
    if y == 0 {
        Err(VmError::Runtime(RuntimeError::DivisionByZero { modulo: op == IntOp::Rem }))
    } else if x == i64::MIN && y == -1 {
        Err(VmError::Runtime(RuntimeError::IntegerOverflow { op, lhs: x, rhs: y }))
    } else if op == IntOp::Rem {
        Ok(Value::Int(trunc_rem(x as int, y as int) as i64))
    } else {
        Ok(Value::Int(trunc_div(x as int, y as int) as i64))
    }
}

/// `a / b`, truncated toward zero: checked on two integers, exact when a
/// bigint is involved; a decimal division by zero fails, any other decimal
/// division is left to the caller.
pub fn div(a: Value, b: Value, heap: &mut Heap) -> (r: Result<Value, VmError>)
    requires
        old(heap).wf(),
    ensures
        final(heap).wf(),
        outcome_done(old(heap)@, final(heap)@, div_outcome(old(heap)@, a, b), r),
{
    if let (Value::Int(x), Value::Int(y)) = (a, b) {
        return match div_int(x, y) {
            Ok(q) => Ok(Value::Int(q)),
            Err(f) => Err(VmError::Runtime(int_div_fault(f, IntOp::Div, x, y))),
        };
    }
    match big_binary(BigOp::Div, a, b, heap) {
        Some(res) => res,
        None => match dec_binary(BigOp::Div, a, b, heap) {
            Some(res) => res,
            None => Err(VmError::Deferred),
        },
    }
}

/// `a % b`, with the sign of `a`: checked on two integers, exact when a
/// bigint or a decimal is involved.
pub fn modulo(a: Value, b: Value, heap: &mut Heap) -> (r: Result<Value, VmError>)
    requires
        old(heap).wf(),
    ensures
        final(heap).wf(),
        outcome_done(old(heap)@, final(heap)@, modulo_outcome(old(heap)@, a, b), r),
{
    if let (Value::Int(x), Value::Int(y)) = (a, b) {
        return match rem_int(x, y) {
            Ok(m) => Ok(Value::Int(m)),
            Err(f) => Err(VmError::Runtime(int_div_fault(f, IntOp::Rem, x, y))),
        };
    }
    match big_binary(BigOp::Rem, a, b, heap) {
        Some(res) => res,
        None => match dec_binary(BigOp::Rem, a, b, heap) {
            Some(res) => res,
            None => Err(VmError::Deferred),
        },
    }
}

/// The exponent an integer power uses: the exponent, capped at `u32::MAX`.
pub open spec fn capped_exponent(e: i64) -> nat {
    if e > u32::MAX { u32::MAX as nat } else { e as nat }
}

/// `base ** exp` on two integers: a negative exponent is an error.
pub open spec fn int_power(base: i64, exp: i64) -> Result<Value, VmError> {
    if exp < 0 {
        Err(VmError::Runtime(RuntimeError::NegativeExponent))
    } else if in_int_range(int_pow(base as int, capped_exponent(exp))) {
        Ok(Value::Int(int_pow(base as int, capped_exponent(exp)) as i64))
    } else {
        Err(VmError::Runtime(RuntimeError::IntegerOverflow { op: IntOp::Pow, lhs: base, rhs: exp }))
    }
}

/// `a ** b`: checked on two integers, exact when a bigint is involved.
pub fn pow(a: Value, b: Value, heap: &mut Heap) -> (r: Result<Value, VmError>)
    requires
        old(heap).wf(),
    ensures
        final(heap).wf(),
        outcome_done(old(heap)@, final(heap)@, pow_outcome(old(heap)@, a, b), r),
{
    if let (Value::Int(x), Value::Int(y)) = (a, b) {
        if y < 0 {
            return Err(VmError::Runtime(RuntimeError::NegativeExponent));
        }
        let e: u32 = if y > u32::MAX as i64 { u32::MAX } else { y as u32 };
        return match pow_int(x, e) {
            Some(p) => Ok(Value::Int(p)),
            None => Err(VmError::Runtime(overflow(IntOp::Pow, x, y))),
        };
    }
    match big_binary(BigOp::Pow, a, b, heap) {
        Some(res) => res,
        None => match dec_binary(BigOp::Pow, a, b, heap) {
            Some(res) => res,
            None => Err(VmError::Deferred),
        },
    }
}

/// What `-a` gives: the checked negation of an integer, a float with its
/// sign bit flipped, the exact negation of a bigint or a decimal.
pub open spec fn negate_outcome(h: Seq<HeapObj>, a: Value) -> Outcome {
    match a {
        Value::Int(x) => if x == i64::MIN {
            Outcome::Fail(VmError::Runtime(RuntimeError::NegationOverflow { operand: x }))
        } else {
            Outcome::Val(Value::Int((-x) as i64))
        },
        Value::Float(bits) => Outcome::Val(Value::Float(bits ^ 0x8000_0000_0000_0000u64)),
        Value::Obj(i) => if i < h.len() {
            match h[i as int] {
                HeapObj::BigInt(b) => Outcome::NewBig(-big_value(b)),
                HeapObj::Decimal(d) => Outcome::NewDec(-dec_unscaled(d), d.scale as int),
                _ => Outcome::Fail(VmError::Deferred),
            }
        } else {
            Outcome::Fail(VmError::Deferred)
        },
        _ => Outcome::Fail(VmError::Deferred),
    }
}

/// `-a`: checked integer negation, a float with its sign bit flipped, or the
/// exact negation of a bigint or a decimal.
pub fn negate(a: Value, heap: &mut Heap) -> (r: Result<Value, VmError>)
    requires
        old(heap).wf(),
    ensures
        final(heap).wf(),
        outcome_done(old(heap)@, final(heap)@, negate_outcome(old(heap)@, a), r),
{
    match a {
        Value::Int(x) => match neg_int(x) {
            Some(n) => Ok(Value::Int(n)),
            None => Err(VmError::Runtime(overflow_neg(x))),
        },
        Value::Float(bits) => Ok(Value::Float(bits ^ 0x8000_0000_0000_0000u64)),
        _ => match big_negate(a, heap) {
            Some(v) => Ok(v),
            None => match dec_negate(a, heap) {
                Some(v) => Ok(v),
                None => Err(VmError::Deferred),
            },
        },
    }
}

/// `a & b` on two integers.
pub fn bit_and(a: Value, b: Value) -> (r: Result<Value, VmError>)
    ensures
        r == (match (a, b) {
            (Value::Int(x), Value::Int(y)) => Ok::<Value, VmError>(Value::Int(x & y)),
            _ => Err(VmError::Deferred),
        }),
{
    match (a, b) {
        (Value::Int(x), Value::Int(y)) => Ok(Value::Int(x & y)),
        _ => Err(VmError::Deferred),
    }
}

/// `a | b` on two integers.
pub fn bit_or(a: Value, b: Value) -> (r: Result<Value, VmError>)
    ensures
        r == (match (a, b) {
            (Value::Int(x), Value::Int(y)) => Ok::<Value, VmError>(Value::Int(x | y)),
            _ => Err(VmError::Deferred),
        }),
{
    match (a, b) {
        (Value::Int(x), Value::Int(y)) => Ok(Value::Int(x | y)),
        _ => Err(VmError::Deferred),
    }
}

/// `a ^ b` on two integers.
pub fn bit_xor(a: Value, b: Value) -> (r: Result<Value, VmError>)
    ensures
        r == (match (a, b) {
            (Value::Int(x), Value::Int(y)) => Ok::<Value, VmError>(Value::Int(x ^ y)),
            _ => Err(VmError::Deferred),
        }),
{
    match (a, b) {
        (Value::Int(x), Value::Int(y)) => Ok(Value::Int(x ^ y)),
        _ => Err(VmError::Deferred),
    }
}

/// A shift count read as a 32-bit integer (saturating), its low six bits.
pub open spec fn shift_count(b: i64) -> u32 {
    let c: i32 = if b > i32::MAX { i32::MAX } else if b < i32::MIN { i32::MIN } else { b as i32 };
    (c as u32) & 63u32
}

/// The shift count of integer `b`.
pub fn shift_amount(b: i64) -> (n: u32)
    ensures
        n == shift_count(b),
        n < 64,
{
    let c: i32 = if b > i32::MAX as i64 {
        i32::MAX
    } else if b < i32::MIN as i64 {
        i32::MIN
    } else {
        b as i32
    };
    let n = (c as u32) & 63u32;
    assert(n < 64) by (bit_vector)
        requires
            n == (c as u32) & 63u32,
    ;
    n
}

/// `a << b` on two integers, wrapping.
pub fn shl(a: Value, b: Value) -> (r: Result<Value, VmError>)
    ensures
        r == (match (a, b) {
            (Value::Int(x), Value::Int(y)) => Ok::<Value, VmError>(Value::Int(x << shift_count(y))),
            _ => Err(VmError::Deferred),
        }),
{
    match (a, b) {
        (Value::Int(x), Value::Int(y)) => {
            let n = shift_amount(y);
            Ok(Value::Int(x.wrapping_shl(n)))
        },
        _ => Err(VmError::Deferred),
    }
}

/// `a >> b` on two integers, arithmetic.
pub fn shr(a: Value, b: Value) -> (r: Result<Value, VmError>)
    ensures
        r == (match (a, b) {
            (Value::Int(x), Value::Int(y)) => Ok::<Value, VmError>(Value::Int(x >> shift_count(y))),
            _ => Err(VmError::Deferred),
        }),
{
    match (a, b) {
        (Value::Int(x), Value::Int(y)) => {
            let n = shift_amount(y);
            Ok(Value::Int(x.wrapping_shr(n)))
        },
        _ => Err(VmError::Deferred),
    }
}

/// `a >>> b` on two integers: the bits of `a` shifted right with zeros in.
pub fn ushr(a: Value, b: Value) -> (r: Result<Value, VmError>)
    ensures
        r == (match (a, b) {
            (Value::Int(x), Value::Int(y)) => Ok::<Value, VmError>(Value::Int(((x as u64) >> shift_count(y)) as i64)),
            _ => Err(VmError::Deferred),
        }),
{
    match (a, b) {
        (Value::Int(x), Value::Int(y)) => {
            let n = shift_amount(y);
            Ok(Value::Int((x as u64).wrapping_shr(n) as i64))
        },
        _ => Err(VmError::Deferred),
    }
}

/// Integer division and remainder put the dividend back together, with a
/// remainder smaller than the divisor and of the dividend's sign, whenever
/// neither faults.
pub proof fn lemma_int_division_identity(x: i64, y: i64)
    requires
        y != 0,
        !(x == i64::MIN && y == -1),
    ensures
        int_division(IntOp::Div, x, y) matches Ok(Value::Int(q))
            && int_division(IntOp::Rem, x, y) matches Ok(Value::Int(r))
            && q * y + r == x
            && crate::int_ops::abs(r as int) < crate::int_ops::abs(y as int)
            && (r == 0 || (r < 0) == (x < 0)),
{
    crate::int_ops::lemma_div_rem_identity(x as int, y as int);
    crate::int_ops::lemma_trunc_div_bounds(x as int, y as int);
}

/// Subtracting what was added gives back the start, whenever the sum of two
/// integers did not overflow.
pub proof fn lemma_sub_undoes_add(h: Seq<HeapObj>, x: i64, y: i64)
    requires
        add_outcome(h, Value::Int(x), Value::Int(y)) is Val,
    ensures
        add_outcome(h, Value::Int(x), Value::Int(y)) matches Outcome::Val(Value::Int(s))
            && sub_outcome(h, Value::Int(s), Value::Int(y)) == Outcome::Val(Value::Int(x)),
{
}

/// Arithmetic on two integers: `+`, `-` and `*` give the exact number when
/// it fits 64 bits and the overflow error naming the operands otherwise;
/// `/` and `%` give a quotient and a remainder that put the dividend back
/// together, the remainder smaller than the divisor and of the dividend's
/// sign; a zero divisor is the division-by-zero error.
pub proof fn lemma_int_arith(h: Seq<HeapObj>, x: i64, y: i64)
    ensures
        add_outcome(h, Value::Int(x), Value::Int(y)) == if i64::MIN <= x + y <= i64::MAX {
            Outcome::Val(Value::Int((x + y) as i64))
        } else {
            Outcome::Fail(VmError::Runtime(RuntimeError::IntegerOverflow { op: IntOp::Add, lhs: x, rhs: y }))
        },
        sub_outcome(h, Value::Int(x), Value::Int(y)) == if i64::MIN <= x - y <= i64::MAX {
            Outcome::Val(Value::Int((x - y) as i64))
        } else {
            Outcome::Fail(VmError::Runtime(RuntimeError::IntegerOverflow { op: IntOp::Sub, lhs: x, rhs: y }))
        },
        mul_outcome(h, Value::Int(x), Value::Int(y)) == if i64::MIN <= x * y <= i64::MAX {
            Outcome::Val(Value::Int((x * y) as i64))
        } else {
            Outcome::Fail(VmError::Runtime(RuntimeError::IntegerOverflow { op: IntOp::Mul, lhs: x, rhs: y }))
        },
        y != 0 && !(x == i64::MIN && y == -1) ==> (div_outcome(h, Value::Int(x), Value::Int(y)) matches Outcome::Val(Value::Int(q))
            && modulo_outcome(h, Value::Int(x), Value::Int(y)) matches Outcome::Val(Value::Int(r))
            && q * y + r == x
            && crate::int_ops::abs(r as int) < crate::int_ops::abs(y as int)
            && (r == 0 || (r < 0) == (x < 0))),
        y == 0 ==> div_outcome(h, Value::Int(x), Value::Int(y)) == Outcome::Fail(VmError::Runtime(RuntimeError::DivisionByZero { modulo: false }))
            && modulo_outcome(h, Value::Int(x), Value::Int(y)) == Outcome::Fail(VmError::Runtime(RuntimeError::DivisionByZero { modulo: true })),
{
    if y != 0 && !(x == i64::MIN && y == -1) {
        lemma_int_division_identity(x, y);
    }
}

} // verus!
