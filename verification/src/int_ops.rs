//! Checked 64-bit integer arithmetic: the `int` type raises on overflow and
//! never wraps or widens. Division truncates toward zero and the remainder
//! takes the sign of the dividend.
use vstd::prelude::*;

verus! {

/// Why an integer division or remainder has no result.
#[derive(Clone, Copy, PartialEq, Eq, Structural, Debug)]
pub enum IntDivFault {
    DivisionByZero,
    Overflow,
}

/// Whether `x` is a 64-bit integer.
pub open spec fn in_int_range(x: int) -> bool {
    i64::MIN <= x <= i64::MAX
}

pub open spec fn abs(x: int) -> int {
    if x < 0 { -x } else { x }
}

/// Division truncated toward zero.
pub open spec fn trunc_div(x: int, d: int) -> int {
    let q = abs(x) / abs(d);
    if (x < 0) != (d < 0) { -q } else { q }
}

/// The remainder of the truncated division: `x == d * trunc_div(x, d) + trunc_rem(x, d)`.
pub open spec fn trunc_rem(x: int, d: int) -> int {
    x - d * trunc_div(x, d)
}

/// `b` to the power `e`.
pub open spec fn int_pow(b: int, e: nat) -> int
    decreases e,
{
    if e == 0 { 1 } else { b * int_pow(b, (e - 1) as nat) }
}

/// `x + y`, or `None` when it leaves the integer range.
pub fn add_int(x: i64, y: i64) -> (r: Option<i64>)
    ensures
        r == (if in_int_range(x + y) { Some((x + y) as i64) } else { None::<i64> }),
{
    x.checked_add(y)
}

/// `x - y`, or `None` when it leaves the integer range.
pub fn sub_int(x: i64, y: i64) -> (r: Option<i64>)
    ensures
        r == (if in_int_range(x - y) { Some((x - y) as i64) } else { None::<i64> }),
{
    x.checked_sub(y)
}

/// `x * y`, or `None` when it leaves the integer range.
pub fn mul_int(x: i64, y: i64) -> (r: Option<i64>)
    ensures
        r == (if in_int_range(x * y) { Some((x * y) as i64) } else { None::<i64> }),
{
    x.checked_mul(y)
}

/// `-x`, or `None` for the one integer whose negation does not fit.
pub fn neg_int(x: i64) -> (r: Option<i64>)
    ensures
        r == (if x == i64::MIN { None::<i64> } else { Some((-x) as i64) }),
{
    if x == i64::MIN {
        None
    } else {
        Some(-x)
    }
}

proof fn lemma_trunc_div_cases(x: int, d: int)
    requires
        d != 0,
    ensures
        trunc_div(x, d) == (if x == 0 {
            0
        } else if x > 0 && d > 0 {
            x / d
        } else if x < 0 && d < 0 {
            (x * -1) / (d * -1)
        } else if x < 0 {
            ((x * -1) / d) * -1
        } else {
            (x / (d * -1)) * -1
        }),
{
    if x == 0 {
        assert(0int / abs(d) == 0) by (nonlinear_arith) requires abs(d) > 0;
    }
}

pub(crate) proof fn lemma_trunc_div_bounds(x: int, d: int)
    requires
        d != 0,
        in_int_range(x),
        in_int_range(d),
        !(x == i64::MIN && d == -1),
    ensures
        in_int_range(trunc_div(x, d)),
        abs(trunc_div(x, d)) <= abs(x),
{
    let q = abs(x) / abs(d);
    assert(0 <= q <= abs(x)) by (nonlinear_arith)
        requires
            abs(d) >= 1,
            abs(x) >= 0,
            q == abs(x) / abs(d),
    ;
    if abs(d) >= 2 {
        assert(q <= abs(x) / 2) by (nonlinear_arith)
            requires
                abs(d) >= 2,
                abs(x) >= 0,
                q == abs(x) / abs(d),
        ;
    }
}

/// `x / y` truncated toward zero; faults on a zero divisor and on the one
/// quotient that does not fit (`i64::MIN / -1`).
pub fn div_int(x: i64, y: i64) -> (r: Result<i64, IntDivFault>)
    ensures
        y == 0 ==> r == Err::<i64, IntDivFault>(IntDivFault::DivisionByZero),
        y != 0 && x == i64::MIN && y == -1 ==> r == Err::<i64, IntDivFault>(IntDivFault::Overflow),
        y != 0 && !(x == i64::MIN && y == -1) ==> r == Ok::<i64, IntDivFault>(trunc_div(x as int, y as int) as i64),
{
    if y == 0 {
        return Err(IntDivFault::DivisionByZero);
    }
    if x == i64::MIN && y == -1 {
        return Err(IntDivFault::Overflow);
    }
    proof {
        lemma_trunc_div_cases(x as int, y as int);
        lemma_trunc_div_bounds(x as int, y as int);
    }
    match x.checked_div(y) {
        Some(q) => Ok(q),
        None => Err(IntDivFault::Overflow),
    }
}

proof fn lemma_trunc_rem_cases(x: int, d: int)
    requires
        d != 0,
    ensures
        trunc_rem(x, d) == (if x == 0 {
            0
        } else if x > 0 && d > 0 {
            x % d
        } else if x < 0 && d < 0 {
            ((x * -1) % (d * -1)) * -1
        } else if x < 0 {
            ((x * -1) % d) * -1
        } else {
            x % (d * -1)
        }),
{
    let ax = abs(x);
    let ad = abs(d);
    let q = ax / ad;
    assert(ax == ad * q + ax % ad) by (nonlinear_arith) requires ad > 0, q == ax / ad;
    if x == 0 {
        assert(0int / ad == 0) by (nonlinear_arith) requires ad > 0;
    } else if x > 0 && d > 0 {
    } else if x < 0 && d < 0 {
        assert(d * q == -(ad * q)) by (nonlinear_arith) requires ad == -d;
    } else if x < 0 {
        assert(d * (-q) == -(ad * q)) by (nonlinear_arith) requires ad == d;
    } else {
        assert(d * (-q) == ad * q) by (nonlinear_arith) requires ad == -d;
    }
}

/// The remainder of `x / y`, with the sign of `x`; faults on a zero divisor
/// and on `i64::MIN % -1`, whose division overflows.
pub fn rem_int(x: i64, y: i64) -> (r: Result<i64, IntDivFault>)
    ensures
        y == 0 ==> r == Err::<i64, IntDivFault>(IntDivFault::DivisionByZero),
        y != 0 && x == i64::MIN && y == -1 ==> r == Err::<i64, IntDivFault>(IntDivFault::Overflow),
        y != 0 && !(x == i64::MIN && y == -1) ==> r == Ok::<i64, IntDivFault>(trunc_rem(x as int, y as int) as i64),
{
    if y == 0 {
        return Err(IntDivFault::DivisionByZero);
    }
    proof {
        lemma_trunc_rem_cases(x as int, y as int);
    }
    match x.checked_rem(y) {
        Some(m) => Ok(m),
        None => Err(IntDivFault::Overflow),
    }
}

proof fn lemma_pow_abs_grows(b: int, n: nat, m: nat)
    requires
        abs(b) >= 2,
        n < m,
    ensures
        abs(int_pow(b, m)) >= 2 * abs(int_pow(b, n)),
    decreases m - n,
{
    let pm1 = int_pow(b, (m - 1) as nat);
    assert(int_pow(b, m) == b * pm1);
    assert(abs(b * pm1) >= 2 * abs(pm1)) by (nonlinear_arith)
        requires
            abs(b) >= 2,
    ;
    if n < m - 1 {
        lemma_pow_abs_grows(b, n, (m - 1) as nat);
    }
}

proof fn lemma_pow_unit(b: int, e: nat)
    requires
        -1 <= b <= 1,
    ensures
        b == 0 ==> int_pow(b, e) == (if e == 0 { 1int } else { 0int }),
        b == 1 ==> int_pow(b, e) == 1,
        b == -1 ==> int_pow(b, e) == (if e % 2 == 0 { 1int } else { -1int }),
    decreases e,
{
    if e > 0 {
        lemma_pow_unit(b, (e - 1) as nat);
    }
}

/// `base` to the power `e`, or `None` when the power leaves the integer range.
pub fn pow_int(base: i64, e: u32) -> (r: Option<i64>)
    ensures
        r == (if in_int_range(int_pow(base as int, e as nat)) {
            Some(int_pow(base as int, e as nat) as i64)
        } else {
            None::<i64>
        }),
{
    if base == 0 || base == 1 || base == -1 {
        proof {
            lemma_pow_unit(base as int, e as nat);
        }
        if base == 0 {
            return if e == 0 { Some(1) } else { Some(0) };
        } else if base == 1 {
            return Some(1);
        } else {
            return if e % 2 == 0 { Some(1) } else { Some(-1) };
        }
    }
    let mut acc: i64 = 1;
    let mut i: u32 = 0;
    while i < e
        invariant
            i <= e,
            abs(base as int) >= 2,
            acc as int == int_pow(base as int, i as nat),
        decreases e - i,
    {
        match acc.checked_mul(base) {
            Some(next) => {
                acc = next;
                i = i + 1;
            },
            None => {
                proof {
                    let v = int_pow(base as int, (i + 1) as nat);
                    assert(v == base * acc);
                    if (i + 1) < e {
                        lemma_pow_abs_grows(base as int, (i + 1) as nat, e as nat);
                    }
                    assert(!in_int_range(int_pow(base as int, e as nat)));
                }
                return None;
            },
        }
    }
    Some(acc)
}

/// Truncated division and its remainder put `x` back together: the
/// remainder is smaller than the divisor and takes the dividend's sign.
pub proof fn lemma_div_rem_identity(x: int, d: int)
    requires
        d != 0,
    ensures
        trunc_div(x, d) * d + trunc_rem(x, d) == x,
        abs(trunc_rem(x, d)) < abs(d),
        trunc_rem(x, d) == 0 || (trunc_rem(x, d) < 0) == (x < 0),
{
    let q = abs(x) / abs(d);
    let m = abs(x) % abs(d);
    assert(abs(x) == abs(d) * q + m && 0 <= m < abs(d)) by (nonlinear_arith)
        requires
            abs(d) > 0,
            abs(x) >= 0,
            q == abs(x) / abs(d),
            m == abs(x) % abs(d),
    ;
    if x >= 0 && d > 0 {
        assert(trunc_rem(x, d) == m) by (nonlinear_arith)
            requires x >= 0, d > 0, abs(x) == x, abs(d) == d, trunc_div(x, d) == q, x == d * q + m, trunc_rem(x, d) == x - d * trunc_div(x, d);
    } else if x >= 0 && d < 0 {
        assert(trunc_rem(x, d) == m) by (nonlinear_arith)
            requires x >= 0, d < 0, abs(x) == x, abs(d) == -d, trunc_div(x, d) == -q, x == -d * q + m, trunc_rem(x, d) == x - d * trunc_div(x, d);
    } else if x < 0 && d > 0 {
        assert(trunc_rem(x, d) == -m) by (nonlinear_arith)
            requires x < 0, d > 0, abs(x) == -x, abs(d) == d, trunc_div(x, d) == -q, -x == d * q + m, trunc_rem(x, d) == x - d * trunc_div(x, d);
    } else {
        assert(trunc_rem(x, d) == -m) by (nonlinear_arith)
            requires x < 0, d < 0, abs(x) == -x, abs(d) == -d, trunc_div(x, d) == q, -x == -d * q + m, trunc_rem(x, d) == x - d * trunc_div(x, d);
    }
    assert(trunc_div(x, d) * d == d * trunc_div(x, d)) by (nonlinear_arith);
}

} // verus!
