use varn_vm::arith::{add, bit_and, div, modulo, mul, negate, pow, shl, shr, sub, ushr};
use varn_vm::bigint::BigNum;
use varn_vm::convert::{convert, NumConv};
use varn_vm::decimal::DecNum;
use varn_vm::compare::{eq, gt_heap, gte_heap, logical_not, lt_heap, lte_heap, member_eq, neq};
use varn_vm::error::{IntOp, RuntimeError, VmError};
use varn_vm::heap::{Heap, HeapObj};
use varn_vm::int_ops::{add_int, div_int, pow_int, rem_int, IntDivFault};
use varn_vm::value::Value;

fn string(heap: &mut Heap, s: &str) -> Value {
    heap.allocate(HeapObj::Str(s.chars().collect()))
}

fn big(heap: &mut Heap, negative: bool, digits: Vec<u32>) -> Value {
    heap.allocate(HeapObj::BigInt(BigNum { negative, digits }))
}

fn big_parts(heap: &Heap, v: Value) -> (bool, Vec<u32>) {
    match v {
        Value::Obj(i) => match heap.get(i) {
            Some(HeapObj::BigInt(b)) => {
                let mut d = b.digits.clone();
                while d.last() == Some(&0) {
                    d.pop();
                }
                (b.negative && !d.is_empty(), d)
            }
            _ => panic!("not a bigint"),
        },
        _ => panic!("not a reference"),
    }
}

fn text_of(heap: &Heap, v: Value) -> String {
    match v {
        Value::Obj(i) => match heap.get(i) {
            Some(HeapObj::Str(cs)) => cs.iter().collect(),
            _ => panic!("not a string"),
        },
        _ => panic!("not a reference"),
    }
}

#[test]
fn int_addition_and_overflow() {
    let mut h = Heap::new();
    assert_eq!(add(Value::Int(2), Value::Int(3), &mut h), Ok(Value::Int(5)));
    assert_eq!(
        add(Value::Int(i64::MAX), Value::Int(1), &mut h),
        Err(VmError::Runtime(RuntimeError::IntegerOverflow { op: IntOp::Add, lhs: i64::MAX, rhs: 1 }))
    );
    assert_eq!(add_int(i64::MIN, -1), None);
    assert_eq!(h.len(), 0);
}

#[test]
fn string_concatenation_allocates() {
    let mut h = Heap::new();
    let a = string(&mut h, "foo");
    let b = string(&mut h, "bar");
    let r = add(a, b, &mut h).unwrap();
    assert_eq!(r, Value::Obj(2));
    assert_eq!(text_of(&h, r), "foobar");
    assert_eq!(h.len(), 3);
    let r = add(a, Value::Int(-12), &mut h).unwrap();
    assert_eq!(text_of(&h, r), "foo-12");
    let r = add(Value::Bool(true), b, &mut h).unwrap();
    assert_eq!(text_of(&h, r), "truebar");
    let r = add(a, Value::Null, &mut h).unwrap();
    assert_eq!(text_of(&h, r), "foonull");
    assert_eq!(add(a, Value::Float(0), &mut h), Err(VmError::Deferred));
}

#[test]
fn sub_mul_div_mod_on_ints() {
    let mut h = Heap::new();
    assert_eq!(sub(Value::Int(7), Value::Int(10), &mut h), Ok(Value::Int(-3)));
    assert_eq!(mul(Value::Int(-4), Value::Int(5), &mut h), Ok(Value::Int(-20)));
    assert_eq!(div(Value::Int(-7), Value::Int(2), &mut h), Ok(Value::Int(-3)));
    assert_eq!(modulo(Value::Int(-7), Value::Int(2), &mut h), Ok(Value::Int(-1)));
    assert_eq!(
        div(Value::Int(1), Value::Int(0), &mut h),
        Err(VmError::Runtime(RuntimeError::DivisionByZero { modulo: false }))
    );
    assert_eq!(
        modulo(Value::Int(1), Value::Int(0), &mut h),
        Err(VmError::Runtime(RuntimeError::DivisionByZero { modulo: true }))
    );
    assert_eq!(
        div(Value::Int(i64::MIN), Value::Int(-1), &mut h),
        Err(VmError::Runtime(RuntimeError::IntegerOverflow { op: IntOp::Div, lhs: i64::MIN, rhs: -1 }))
    );
    assert_eq!(div_int(7, 2), Ok(3));
    assert_eq!(rem_int(i64::MIN, -1), Err(IntDivFault::Overflow));
    assert_eq!(
        mul(Value::Int(i64::MAX), Value::Int(2), &mut h),
        Err(VmError::Runtime(RuntimeError::IntegerOverflow { op: IntOp::Mul, lhs: i64::MAX, rhs: 2 }))
    );
}

#[test]
fn division_identity_on_concrete_values() {
    let mut h = Heap::new();
    for (a, b) in [(17i64, 5i64), (-17, 5), (17, -5), (-17, -5)] {
        let q = match div(Value::Int(a), Value::Int(b), &mut h) {
            Ok(Value::Int(q)) => q,
            other => panic!("{:?}", other),
        };
        let r = match modulo(Value::Int(a), Value::Int(b), &mut h) {
            Ok(Value::Int(r)) => r,
            other => panic!("{:?}", other),
        };
        assert_eq!(q * b + r, a);
        assert!(r.abs() < b.abs());
        assert!(r == 0 || (r < 0) == (a < 0));
    }
}

#[test]
fn powers() {
    let mut h = Heap::new();
    assert_eq!(pow(Value::Int(3), Value::Int(4), &mut h), Ok(Value::Int(81)));
    assert_eq!(pow(Value::Int(-2), Value::Int(3), &mut h), Ok(Value::Int(-8)));
    assert_eq!(pow(Value::Int(5), Value::Int(0), &mut h), Ok(Value::Int(1)));
    assert_eq!(
        pow(Value::Int(2), Value::Int(-1), &mut h),
        Err(VmError::Runtime(RuntimeError::NegativeExponent))
    );
    assert_eq!(
        pow(Value::Int(2), Value::Int(64), &mut h),
        Err(VmError::Runtime(RuntimeError::IntegerOverflow { op: IntOp::Pow, lhs: 2, rhs: 64 }))
    );
    assert_eq!(pow_int(2, 62), Some(1i64 << 62));
    assert_eq!(pow_int(2, 63), None);
    assert_eq!(pow_int(-2, 63), Some(i64::MIN));
}

#[test]
fn negation() {
    let mut h = Heap::new();
    assert_eq!(negate(Value::Int(5), &mut h), Ok(Value::Int(-5)));
    assert_eq!(
        negate(Value::Int(i64::MIN), &mut h),
        Err(VmError::Runtime(RuntimeError::NegationOverflow { operand: i64::MIN }))
    );
    let one = 1.0f64.to_bits();
    assert_eq!(negate(Value::Float(one), &mut h), Ok(Value::Float((-1.0f64).to_bits())));
    assert_eq!(negate(Value::Null, &mut h), Err(VmError::Deferred));
}

#[test]
fn bitwise_and_shifts() {
    assert_eq!(bit_and(Value::Int(12), Value::Int(10)), Ok(Value::Int(8)));
    assert_eq!(shl(Value::Int(1), Value::Int(65)), Ok(Value::Int(2)));
    assert_eq!(shr(Value::Int(-8), Value::Int(1)), Ok(Value::Int(-4)));
    assert_eq!(ushr(Value::Int(-1), Value::Int(60)), Ok(Value::Int(15)));
    assert_eq!(shl(Value::Int(1), Value::Int(-1)), Ok(Value::Int(i64::MIN)));
    assert_eq!(bit_and(Value::Bool(true), Value::Int(1)), Err(VmError::Deferred));
}

#[test]
fn bigint_arithmetic_widens_ints() {
    let mut h = Heap::new();
    // 2^32 + 5
    let x = big(&mut h, false, vec![5, 1]);
    let r = add(x, Value::Int(-6), &mut h).unwrap();
    assert_eq!(big_parts(&h, r), (false, vec![u32::MAX]));
    let p = mul(x, x, &mut h).unwrap();
    // (2^32 + 5)^2 = 2^64 + 10 * 2^32 + 25
    assert_eq!(big_parts(&h, p), (false, vec![25, 10, 1]));
    let n = negate(x, &mut h).unwrap();
    assert_eq!(big_parts(&h, n), (true, vec![5, 1]));
    let s = sub(Value::Int(0), x, &mut h).unwrap();
    assert_eq!(eq(s, n, &h), Ok(true));
}

#[test]
fn bigint_division_truncates() {
    let mut h = Heap::new();
    let x = big(&mut h, true, vec![7]);
    let q = div(x, Value::Int(2), &mut h).unwrap();
    assert_eq!(big_parts(&h, q), (true, vec![3]));
    let r = modulo(x, Value::Int(2), &mut h).unwrap();
    assert_eq!(big_parts(&h, r), (true, vec![1]));
    assert_eq!(
        div(x, Value::Int(0), &mut h),
        Err(VmError::Runtime(RuntimeError::DivisionByZero { modulo: false }))
    );
    let zero = big(&mut h, false, vec![0, 0]);
    assert_eq!(
        modulo(x, zero, &mut h),
        Err(VmError::Runtime(RuntimeError::DivisionByZero { modulo: true }))
    );
}

#[test]
fn bigint_powers() {
    let mut h = Heap::new();
    let two = big(&mut h, false, vec![2]);
    let p = pow(two, Value::Int(64), &mut h).unwrap();
    assert_eq!(big_parts(&h, p), (false, vec![0, 0, 1]));
    assert_eq!(
        pow(two, Value::Int(-1), &mut h),
        Err(VmError::Runtime(RuntimeError::NegativeExponent))
    );
    let huge = big(&mut h, false, vec![0, 1]);
    assert_eq!(
        pow(Value::Int(1), huge, &mut h),
        Err(VmError::Runtime(RuntimeError::ExponentTooLarge))
    );
}

#[test]
fn bigint_comparisons() {
    let mut h = Heap::new();
    let a = big(&mut h, false, vec![3]);
    let b = big(&mut h, false, vec![3, 0]);
    let c = big(&mut h, true, vec![1, 1]);
    assert_eq!(eq(a, b, &h), Ok(true));
    assert_eq!(eq(a, Value::Int(3), &h), Ok(true));
    assert_eq!(eq(Value::Int(4), a, &h), Ok(false));
    assert_eq!(lt_heap(c, a, &h), Ok(true));
    assert_eq!(lt_heap(a, c, &h), Ok(false));
    assert_eq!(lt_heap(a, Value::Int(5), &h), Err(VmError::Deferred));
}

#[test]
fn comparisons_on_ints() {
    let h = Heap::new();
    assert_eq!(lt_heap(Value::Int(1), Value::Int(2), &h), Ok(true));
    assert_eq!(gt_heap(Value::Int(1), Value::Int(2), &h), Ok(false));
    assert_eq!(lte_heap(Value::Int(2), Value::Int(2), &h), Ok(true));
    assert_eq!(gte_heap(Value::Int(1), Value::Int(2), &h), Ok(false));
    assert_eq!(neq(Value::Int(1), Value::Int(2), &h), Ok(true));
    assert_eq!(lt_heap(Value::Float(0), Value::Int(2), &h), Err(VmError::Deferred));
    // a > b is b < a
    for (a, b) in [(1i64, 2i64), (2, 1), (3, 3)] {
        assert_eq!(gt_heap(Value::Int(a), Value::Int(b), &h), lt_heap(Value::Int(b), Value::Int(a), &h));
    }
}

#[test]
fn truthiness_and_not() {
    assert_eq!(logical_not(Value::Null), Value::Bool(true));
    assert_eq!(logical_not(Value::Int(0)), Value::Bool(true));
    assert_eq!(logical_not(Value::Int(3)), Value::Bool(false));
    assert_eq!(logical_not(Value::Float((-0.0f64).to_bits())), Value::Bool(true));
    assert_eq!(logical_not(Value::Float(f64::NAN.to_bits())), Value::Bool(true));
    assert_eq!(logical_not(Value::Float(0.5f64.to_bits())), Value::Bool(false));
    assert_eq!(logical_not(Value::Obj(0)), Value::Bool(false));
    for v in [Value::Null, Value::Bool(true), Value::Int(7), Value::Obj(3)] {
        assert_eq!(logical_not(logical_not(v)), Value::Bool(v.is_truthy()));
    }
}

#[test]
fn arrays_compare_by_identity_but_members_by_elements() {
    let mut h = Heap::new();
    let a = h.allocate(HeapObj::Array(vec![Value::Int(1), Value::Int(2)]));
    let b = h.allocate(HeapObj::Array(vec![Value::Int(1), Value::Int(2)]));
    let c = h.allocate(HeapObj::Array(vec![Value::Int(1)]));
    assert_eq!(eq(a, b, &h), Ok(false));
    assert_eq!(eq(a, a, &h), Ok(true));
    assert_eq!(member_eq(a, b, &h), Ok(true));
    assert_eq!(member_eq(a, c, &h), Ok(false));
    let t1 = h.allocate(HeapObj::Tuple(vec![a]));
    let t2 = h.allocate(HeapObj::Tuple(vec![b]));
    assert_eq!(eq(t1, t2, &h), Ok(true));
}

#[test]
fn subtraction_undoes_addition() {
    let mut h = Heap::new();
    for (x, y) in [(5i64, 7i64), (-100, 3), (i64::MAX - 1, 1)] {
        let s = add(Value::Int(x), Value::Int(y), &mut h).unwrap();
        assert_eq!(sub(s, Value::Int(y), &mut h), Ok(Value::Int(x)));
    }
}

#[test]
fn equality_is_reflexive_except_floats() {
    let mut h = Heap::new();
    let s = string(&mut h, "x");
    for v in [Value::Null, Value::Bool(false), Value::Int(-4), s] {
        assert_eq!(eq(v, v, &h), Ok(true));
    }
    let f = Value::Float(1.0f64.to_bits());
    assert_eq!(eq(f, f, &h), Err(VmError::Deferred));
}

fn dec(heap: &mut Heap, unscaled: i64, scale: i64) -> Value {
    let digits = if unscaled == 0 { vec![] } else {
        let m = unscaled.unsigned_abs();
        if m >> 32 == 0 { vec![m as u32] } else { vec![m as u32, (m >> 32) as u32] }
    };
    heap.allocate(HeapObj::Decimal(DecNum { negative: unscaled < 0, digits, scale }))
}

/// The decimal's value times 10^6, for decimals with at most six places.
fn micros(heap: &Heap, v: Value) -> i128 {
    match v {
        Value::Obj(i) => match heap.get(i) {
            Some(HeapObj::Decimal(d)) => {
                let mut m: i128 = 0;
                for (k, digit) in d.digits.iter().enumerate() {
                    m += (*digit as i128) << (32 * k);
                }
                if d.negative {
                    m = -m;
                }
                assert!(d.scale <= 6);
                m * 10i128.pow((6 - d.scale) as u32)
            }
            _ => panic!("not a decimal"),
        },
        _ => panic!("not a reference"),
    }
}

#[test]
fn decimal_arithmetic_is_exact() {
    let mut heap = Heap::new();
    let a = dec(&mut heap, 15, 1); // 1.5
    let b = dec(&mut heap, 25, 2); // 0.25
    let r = add(a, b, &mut heap).unwrap();
    assert_eq!(micros(&heap, r), 1_750_000);
    let r = sub(a, Value::Int(2), &mut heap).unwrap();
    assert_eq!(micros(&heap, r), -500_000);
    let r = mul(a, a, &mut heap).unwrap();
    assert_eq!(micros(&heap, r), 2_250_000);
    let c = dec(&mut heap, 75, 1); // 7.5
    let r = modulo(c, Value::Int(2), &mut heap).unwrap();
    assert_eq!(micros(&heap, r), 1_500_000);
    let r = modulo(dec(&mut heap, -75, 1), Value::Int(2), &mut heap).unwrap();
    assert_eq!(micros(&heap, r), -1_500_000);
    let r = negate(a, &mut heap).unwrap();
    assert_eq!(micros(&heap, r), -1_500_000);
    let zero = dec(&mut heap, 0, 3);
    assert_eq!(div(a, zero, &mut heap), Err(VmError::Runtime(RuntimeError::DivisionByZero { modulo: false })));
    assert_eq!(modulo(a, zero, &mut heap), Err(VmError::Runtime(RuntimeError::DivisionByZero { modulo: true })));
    assert_eq!(div(a, b, &mut heap), Err(VmError::Deferred));
    assert_eq!(pow(a, Value::Int(2), &mut heap), Err(VmError::Deferred));
}

#[test]
fn decimal_comparisons_go_by_value() {
    let mut heap = Heap::new();
    let a = dec(&mut heap, 15, 1); // 1.5
    let a2 = dec(&mut heap, 1500, 3); // 1.500
    let two = dec(&mut heap, 2, 0);
    assert_eq!(eq(a, a2, &heap), Ok(true));
    assert_eq!(eq(two, Value::Int(2), &heap), Ok(true));
    assert_eq!(eq(Value::Int(2), a, &heap), Ok(false));
    assert_eq!(lt_heap(a, two, &heap), Ok(true));
    assert_eq!(lt_heap(a, Value::Int(1), &heap), Ok(false));
    assert_eq!(lt_heap(Value::Int(1), a, &heap), Ok(true));
    assert_eq!(gte_heap(a2, a, &heap), Ok(true));
    let far = dec(&mut heap, 1, 1 << 40);
    assert_eq!(eq(far, a, &heap), Err(VmError::Deferred));
    assert_eq!(add(far, a, &mut heap), Err(VmError::Deferred));
}

#[test]
fn numeric_conversions() {
    let mut heap = Heap::new();
    let b = convert(NumConv::IntToBigInt, Value::Int(-5), &mut heap).unwrap();
    assert_eq!(big_parts(&heap, b), (true, vec![5]));
    assert_eq!(convert(NumConv::BigIntToInt, b, &mut heap), Ok(Value::Int(-5)));
    let huge = big(&mut heap, false, vec![0, 0, 1]);
    assert_eq!(
        convert(NumConv::BigIntToInt, huge, &mut heap),
        Err(VmError::Runtime(RuntimeError::IntOutOfRange))
    );
    let d = dec(&mut heap, -75, 1); // -7.5
    assert_eq!(convert(NumConv::DecimalToInt, d, &mut heap), Ok(Value::Int(-7)));
    let db = convert(NumConv::DecimalToBigInt, d, &mut heap).unwrap();
    assert_eq!(big_parts(&heap, db), (true, vec![7]));
    let bd = convert(NumConv::BigIntToDecimal, b, &mut heap).unwrap();
    assert_eq!(micros(&heap, bd), -5_000_000);
    let id = convert(NumConv::IntToDecimal, Value::Int(12), &mut heap).unwrap();
    assert_eq!(micros(&heap, id), 12_000_000);
    let small = dec(&mut heap, 5, 6); // 0.000005
    assert_eq!(convert(NumConv::DynToInt, small, &mut heap), Ok(Value::Int(0)));
    assert_eq!(convert(NumConv::IntToFloat, Value::Int(1), &mut heap), Err(VmError::Deferred));
    assert_eq!(convert(NumConv::DynToInt, Value::Null, &mut heap), Err(VmError::Runtime(RuntimeError::NotNumeric)));
    let s = string(&mut heap, "1");
    assert_eq!(convert(NumConv::DynToInt, s, &mut heap), Err(VmError::Runtime(RuntimeError::NotNumeric)));
}

use varn_vm::heap::Field as RecField;

#[test]
fn record_equality_is_symmetric() {
    let f = |k: &str, v: Value| RecField { key: k.chars().collect(), value: v };
    let mut h = Heap::new();
    let a = h.allocate(HeapObj::Record(vec![f("x", Value::Int(1)), f("y", Value::Int(2))]));
    let b = h.allocate(HeapObj::Record(vec![f("y", Value::Int(2)), f("x", Value::Int(1))]));
    let c = h.allocate(HeapObj::Record(vec![f("y", Value::Int(2)), f("z", Value::Int(1))]));
    assert_eq!(varn_vm::compare::eq(a, b, &h), Ok(true));
    assert_eq!(varn_vm::compare::eq(b, a, &h), Ok(true));
    assert_eq!(varn_vm::compare::eq(a, c, &h), Ok(false));
    assert_eq!(varn_vm::compare::eq(c, a, &h), Ok(false));
}

#[test]
fn integers_round_trip_through_bigint_and_decimal() {
    for i in [0i64, 7, -42, i64::MAX, i64::MIN] {
        let mut h = Heap::new();
        let b = convert(NumConv::IntToBigInt, Value::Int(i), &mut h).unwrap();
        assert_eq!(convert(NumConv::BigIntToInt, b, &mut h), Ok(Value::Int(i)));
        let d = convert(NumConv::IntToDecimal, Value::Int(i), &mut h).unwrap();
        assert_eq!(convert(NumConv::DecimalToInt, d, &mut h), Ok(Value::Int(i)));
    }
}

fn dec_of(m: u128, scale: i64) -> DecNum {
    let mut digits = vec![];
    let mut x = m;
    while x > 0 {
        digits.push((x & 0xffff_ffff) as u32);
        x >>= 32;
    }
    DecNum { negative: false, digits, scale }
}

#[test]
fn decimals_equal_across_scales() {
    let n: u128 = 1844674407u128 * (1u128 << 32) + 1600000000;
    let mut h = Heap::new();
    let a = h.allocate(HeapObj::Decimal(dec_of(n * 10_000_000_000, 10)));
    let b = h.allocate(HeapObj::Decimal(dec_of(n, 0)));
    let c = h.allocate(HeapObj::Decimal(dec_of(n + 1, 0)));
    assert_eq!(eq(a, b, &h), Ok(true));
    assert_eq!(eq(b, a, &h), Ok(true));
    assert_eq!(eq(a, c, &h), Ok(false));
}

#[test]
fn record_equality_is_symmetric_with_a_float_member() {
    let f = |k: &str, v: Value| RecField { key: k.chars().collect(), value: v };
    let x = Value::Float(1.5f64.to_bits());
    let mut h = Heap::new();
    let a = h.allocate(HeapObj::Record(vec![f("x", x), f("y", Value::Int(1))]));
    let b = h.allocate(HeapObj::Record(vec![f("y", Value::Int(2)), f("x", x)]));
    let c = h.allocate(HeapObj::Record(vec![f("y", Value::Int(1)), f("x", x)]));
    assert_eq!(eq(a, b, &h), Ok(false));
    assert_eq!(eq(b, a, &h), Ok(false));
    assert_eq!(eq(a, c, &h), Err(VmError::Deferred));
    assert_eq!(eq(c, a, &h), Err(VmError::Deferred));
}
