//! Equality and ordering of values.
//!
//! Equality compares strings, characters, tuples, records and enum values
//! by content and arrays and objects by identity; inside a tuple, a record
//! or an enum payload arrays compare by content too. A comparison of two
//! floats, or of an integer with a float, is left to the caller, as is one
//! that involves a decimal whose scale lies beyond ±2^30. A tuple, record
//! or array member comparison with an unequal pair is unequal even where
//! another pair is left to the caller.
use vstd::prelude::*;
use crate::value::{Value, truthy};
use crate::heap::{Heap, HeapObj, Field, fields_view, key_index};
use crate::error::VmError;
use crate::collections::{chars_eq, find_field};
use crate::bigint::{big_value, big_eq, big_from_int, big_lt};
use crate::decimal::{DecNum, dec_unscaled, same_dec, dec_below, scale_ok, scale_within, dec_eq, dec_lt, dec_from_int};

verus! {

/// The elements of the array that `v` refers to, when it does.
pub open spec fn array_of(h: Seq<HeapObj>, v: Value) -> Option<Seq<Value>> {
    match v {
        Value::Obj(i) => if i < h.len() {
            match h[i as int] {
                HeapObj::Array(a) => Some(a@),
                _ => None,
            }
        } else {
            None
        },
        _ => None,
    }
}

/// `a` and `b` are equal as members of a value type, looking `d` levels
/// deep: two arrays are equal element by element, anything else as `==`.
/// `None` when the answer is left to the caller (see the module's notes).
pub open spec fn member_eq_at(h: Seq<HeapObj>, a: Value, b: Value, d: nat) -> Option<bool>
    decreases d, 2nat, 0nat,
{
    match (array_of(h, a), array_of(h, b)) {
        (Some(x), Some(y)) => if x.len() != y.len() {
            Some(false)
        } else if d == 0 {
            Some(false)
        } else {
            elems_eq_at(h, x, y, (d - 1) as nat, x.len())
        },
        _ => values_eq_at(h, a, b, d),
    }
}

/// Both of two answers hold: `Some(false)` when either is false, `None`
/// (left to the caller) when either is left and neither is false.
pub open spec fn both(p: Option<bool>, q: Option<bool>) -> Option<bool> {
    if p == Some(false) || q == Some(false) {
        Some(false)
    } else if p is None || q is None {
        None
    } else {
        Some(true)
    }
}

/// The first `n` elements of `x` and `y` are pairwise equal as members:
/// `Some(false)` when some pair is unequal, else `None` when some pair's
/// comparison is left to the caller.
pub open spec fn elems_eq_at(h: Seq<HeapObj>, x: Seq<Value>, y: Seq<Value>, d: nat, n: nat) -> Option<bool>
    decreases d, 3nat, n,
{
    if n == 0 {
        Some(true)
    } else {
        both(elems_eq_at(h, x, y, d, (n - 1) as nat), member_eq_at(h, x[n - 1], y[n - 1], d))
    }
}

/// Field `i` of `fa` has a field of the same name in `fb` equal to it as a
/// member.
pub open spec fn field_matches(h: Seq<HeapObj>, fa: Seq<(Seq<char>, Value)>, fb: Seq<(Seq<char>, Value)>, d: nat, i: int) -> Option<bool>
    decreases d, 3nat, 0nat,
{
    match key_index(fb, fa[i].0) {
        Some(j) => member_eq_at(h, fa[i].1, fb[j].1, d),
        None => Some(false),
    }
}

/// Each of the first `n` fields of `fa` has a field of the same name in
/// `fb` that is equal to it as a member (three-valued, as [`both`]).
pub open spec fn fields_eq_at(h: Seq<HeapObj>, fa: Seq<(Seq<char>, Value)>, fb: Seq<(Seq<char>, Value)>, d: nat, n: nat) -> Option<bool>
    decreases d, 3nat, n,
{
    if n == 0 {
        Some(true)
    } else {
        both(fields_eq_at(h, fa, fb, d, (n - 1) as nat), field_matches(h, fa, fb, d, n - 1))
    }
}

/// A heap object equals an integer when it is a bigint of that value, a
/// decimal of that value or an enum value of that tag (`None`: a decimal
/// beyond the scale limit, left to the caller).
pub open spec fn obj_equals_int(h: Seq<HeapObj>, i: usize, n: i64) -> Option<bool> {
    if i < h.len() {
        match h[i as int] {
            HeapObj::BigInt(b) => Some(big_value(b) == n),
            HeapObj::Decimal(d) => if scale_ok(d) {
                Some(same_dec(dec_unscaled(d), d.scale as int, n as int, 0))
            } else {
                None
            },
            HeapObj::EnumVariant(v) => Some(v.tag == n),
            _ => Some(false),
        }
    } else {
        Some(false)
    }
}

/// `a == b`, looking `d` levels into tuples, records and enum payloads.
pub open spec fn values_eq_at(h: Seq<HeapObj>, a: Value, b: Value, d: nat) -> Option<bool>
    decreases d, 1nat, 0nat,
{
    match (a, b) {
        (Value::Int(x), Value::Int(y)) => Some(x == y),
        (Value::Float(_), Value::Float(_)) => None,
        (Value::Bool(x), Value::Bool(y)) => Some(x == y),
        (Value::Null, Value::Null) => Some(true),
        (Value::Null, _) => Some(false),
        (_, Value::Null) => Some(false),
        (Value::Int(_), Value::Float(_)) => None,
        (Value::Float(_), Value::Int(_)) => None,
        (Value::Obj(i), Value::Obj(j)) => if i == j {
            Some(true)
        } else if i >= h.len() || j >= h.len() {
            Some(false)
        } else {
            match (h[i as int], h[j as int]) {
                (HeapObj::Str(x), HeapObj::Str(y)) => Some(x@ == y@),
                (HeapObj::Char(x), HeapObj::Char(y)) => Some(x == y),
                (HeapObj::BigInt(x), HeapObj::BigInt(y)) => Some(big_value(x) == big_value(y)),
                (HeapObj::Decimal(x), HeapObj::Decimal(y)) => if scale_ok(x) && scale_ok(y) {
                    Some(same_dec(dec_unscaled(x), x.scale as int, dec_unscaled(y), y.scale as int))
                } else {
                    None
                },
                (HeapObj::EnumVariant(x), HeapObj::EnumVariant(y)) =>
                    if x.enum_name@ != y.enum_name@ || x.tag != y.tag {
                        Some(false)
                    } else if d == 0 {
                        Some(false)
                    } else {
                        member_eq_at(h, x.payload, y.payload, (d - 1) as nat)
                    },
                (HeapObj::Tuple(x), HeapObj::Tuple(y)) => if x@.len() != y@.len() {
                    Some(false)
                } else if d == 0 {
                    Some(false)
                } else {
                    elems_eq_at(h, x@, y@, (d - 1) as nat, x@.len())
                },
                (HeapObj::Record(x), HeapObj::Record(y)) => if x@.len() != y@.len() {
                    Some(false)
                } else if d == 0 {
                    Some(false)
                } else {
                    fields_eq_at(h, fields_view(x@), fields_view(y@), (d - 1) as nat, x@.len())
                },
                _ => Some(false),
            }
        },
        (Value::Obj(i), Value::Int(n)) => obj_equals_int(h, i, n),
        (Value::Int(n), Value::Obj(i)) => obj_equals_int(h, i, n),
        _ => Some(false),
    }
}

/// How many levels deep a comparison on heap `h` looks: more than any value
/// of a heap without cycles nests, since each level is a different object.
pub open spec fn eq_depth(h: Seq<HeapObj>) -> nat {
    h.len()
}

/// `a == b` on heap `h` (`None`: left to the caller).
pub open spec fn values_eq(h: Seq<HeapObj>, a: Value, b: Value) -> Option<bool> {
    values_eq_at(h, a, b, eq_depth(h))
}

fn result_of(o: Option<bool>) -> (r: Result<bool, VmError>)
    ensures
        o matches Some(x) ==> r == Ok::<bool, VmError>(x),
        o is None ==> r == Err::<bool, VmError>(VmError::Deferred),
{
    match o {
        Some(x) => Ok(x),
        None => Err(VmError::Deferred),
    }
}

fn both_exec(p: Option<bool>, q: Option<bool>) -> (r: Option<bool>)
    ensures
        r == both(p, q),
{
    if p == Some(false) || q == Some(false) {
        Some(false)
    } else if p.is_none() || q.is_none() {
        None
    } else {
        Some(true)
    }
}

fn elems_eq(h: &Heap, x: &Vec<Value>, y: &Vec<Value>, d: usize) -> (r: Option<bool>)
    requires
        h.wf(),
        x@.len() == y@.len(),
    ensures
        r == elems_eq_at(h@, x@, y@, d as nat, x@.len()),
    decreases d, 3nat, x@.len(),
{
    let mut acc: Option<bool> = Some(true);
    let mut k: usize = 0;
    while k < x.len()
        invariant
            h.wf(),
            x@.len() == y@.len(),
            k <= x@.len(),
            acc == elems_eq_at(h@, x@, y@, d as nat, k as nat),
            acc != Some(false),
        decreases x@.len() - k,
    {
        let e = member_eq_at_exec(h, x[k], y[k], d);
        acc = both_exec(acc, e);
        k = k + 1;
        if acc == Some(false) {
            proof {
                lemma_elems_false_stays(h@, x@, y@, d as nat, k as nat, x@.len());
            }
            return acc;
        }
    }
    acc
}

proof fn lemma_elems_false_stays(h: Seq<HeapObj>, x: Seq<Value>, y: Seq<Value>, d: nat, k: nat, n: nat)
    requires
        k <= n,
        elems_eq_at(h, x, y, d, k) == Some(false),
    ensures
        elems_eq_at(h, x, y, d, n) == Some(false),
    decreases n - k,
{
    if k < n {
        lemma_elems_false_stays(h, x, y, d, k, (n - 1) as nat);
    }
}

proof fn lemma_fields_false_stays(h: Seq<HeapObj>, fa: Seq<(Seq<char>, Value)>, fb: Seq<(Seq<char>, Value)>, d: nat, k: nat, n: nat)
    requires
        k <= n,
        fields_eq_at(h, fa, fb, d, k) == Some(false),
    ensures
        fields_eq_at(h, fa, fb, d, n) == Some(false),
    decreases n - k,
{
    if k < n {
        lemma_fields_false_stays(h, fa, fb, d, k, (n - 1) as nat);
    }
}

fn fields_eq(h: &Heap, x: &Vec<Field>, y: &Vec<Field>, d: usize) -> (r: Option<bool>)
    requires
        h.wf(),
        crate::heap::keys_distinct(fields_view(y@)),
    ensures
        r == fields_eq_at(h@, fields_view(x@), fields_view(y@), d as nat, x@.len()),
    decreases d, 3nat, x@.len(),
{
    let ghost fa = fields_view(x@);
    let ghost fb = fields_view(y@);
    let mut acc: Option<bool> = Some(true);
    let mut k: usize = 0;
    while k < x.len()
        invariant
            h.wf(),
            k <= x@.len(),
            fa == fields_view(x@),
            fb == fields_view(y@),
            crate::heap::keys_distinct(fb),
            acc == fields_eq_at(h@, fa, fb, d as nat, k as nat),
            acc != Some(false),
        decreases x@.len() - k,
    {
        let e = match find_field(y, &x[k].key) {
            Some(j) => member_eq_at_exec(h, x[k].value, y[j].value, d),
            None => Some(false),
        };
        assert(e == field_matches(h@, fa, fb, d as nat, k as int));
        acc = both_exec(acc, e);
        k = k + 1;
        if acc == Some(false) {
            proof {
                lemma_fields_false_stays(h@, fa, fb, d as nat, k as nat, x@.len());
            }
            return acc;
        }
    }
    acc
}

fn member_eq_at_exec(h: &Heap, a: Value, b: Value, d: usize) -> (r: Option<bool>)
    requires
        h.wf(),
    ensures
        r == member_eq_at(h@, a, b, d as nat),
    decreases d, 2nat, 0nat,
{
    if let (Value::Obj(i), Value::Obj(j)) = (a, b) {
        if let (Some(HeapObj::Array(x)), Some(HeapObj::Array(y))) = (h.get(i), h.get(j)) {
            if x.len() != y.len() {
                return Some(false);
            }
            if d == 0 {
                return Some(false);
            }
            return elems_eq(h, x, y, d - 1);
        }
    }
    values_eq_at_exec(h, a, b, d)
}

fn values_eq_at_exec(h: &Heap, a: Value, b: Value, d: usize) -> (r: Option<bool>)
    requires
        h.wf(),
    ensures
        r == values_eq_at(h@, a, b, d as nat),
    decreases d, 1nat, 0nat,
{
    match (a, b) {
        (Value::Int(x), Value::Int(y)) => Some(x == y),
        (Value::Float(_), Value::Float(_)) => None,
        (Value::Bool(x), Value::Bool(y)) => Some(x == y),
        (Value::Null, Value::Null) => Some(true),
        (Value::Null, _) => Some(false),
        (_, Value::Null) => Some(false),
        (Value::Int(_), Value::Float(_)) => None,
        (Value::Float(_), Value::Int(_)) => None,
        (Value::Obj(i), Value::Obj(j)) => {
            if i == j {
                return Some(true);
            }
            match (h.get(i), h.get(j)) {
                (Some(HeapObj::Str(x)), Some(HeapObj::Str(y))) => Some(chars_eq(x, y)),
                (Some(HeapObj::Char(x)), Some(HeapObj::Char(y))) => Some(*x == *y),
                (Some(HeapObj::BigInt(x)), Some(HeapObj::BigInt(y))) => Some(big_eq(x, y)),
                (Some(HeapObj::Decimal(x)), Some(HeapObj::Decimal(y))) => {
                    if scale_within(x) && scale_within(y) {
                        Some(dec_eq(x, y))
                    } else {
                        None
                    }
                },
                (Some(HeapObj::EnumVariant(x)), Some(HeapObj::EnumVariant(y))) => {
                    if !chars_eq(&x.enum_name, &y.enum_name) || x.tag != y.tag {
                        Some(false)
                    } else if d == 0 {
                        Some(false)
                    } else {
                        member_eq_at_exec(h, x.payload, y.payload, d - 1)
                    }
                },
                (Some(HeapObj::Tuple(x)), Some(HeapObj::Tuple(y))) => {
                    if x.len() != y.len() {
                        Some(false)
                    } else if d == 0 {
                        Some(false)
                    } else {
                        elems_eq(h, x, y, d - 1)
                    }
                },
                (Some(HeapObj::Record(x)), Some(HeapObj::Record(y))) => {
                    if x.len() != y.len() {
                        Some(false)
                    } else if d == 0 {
                        Some(false)
                    } else {
                        proof {
                            assert(crate::heap::obj_ok(h@[j as int]));
                        }
                        fields_eq(h, x, y, d - 1)
                    }
                },
                _ => Some(false),
            }
        },
        (Value::Obj(i), Value::Int(n)) | (Value::Int(n), Value::Obj(i)) => match h.get(i) {
            Some(HeapObj::BigInt(x)) => Some(big_eq(x, &big_from_int(n))),
            Some(HeapObj::Decimal(x)) => {
                if scale_within(x) {
                    Some(dec_eq(x, &dec_from_int(n)))
                } else {
                    None
                }
            },
            Some(HeapObj::EnumVariant(v)) => Some(v.tag == n),
            _ => Some(false),
        },
        _ => Some(false),
    }
}


/// A comparison's answer, `Deferred` when it is left to the caller.
pub open spec fn decided(o: Option<bool>) -> Result<bool, VmError> {
    match o {
        Some(x) => Ok(x),
        None => Err(VmError::Deferred),
    }
}

/// `a == b`.
pub fn eq(a: Value, b: Value, heap: &Heap) -> (r: Result<bool, VmError>)
    requires
        heap.wf(),
    ensures
        r == decided(values_eq(heap@, a, b)),
{
    result_of(values_eq_at_exec(heap, a, b, heap.len()))
}

/// `a == b` as members of a value type: two arrays compare element by element.
pub fn member_eq(a: Value, b: Value, heap: &Heap) -> (r: Result<bool, VmError>)
    requires
        heap.wf(),
    ensures
        r == decided(member_eq_at(heap@, a, b, eq_depth(heap@))),
{
    result_of(member_eq_at_exec(heap, a, b, heap.len()))
}

/// `a != b`.
pub fn neq(a: Value, b: Value, heap: &Heap) -> (r: Result<bool, VmError>)
    requires
        heap.wf(),
    ensures
        r == (match values_eq(heap@, a, b) {
            Some(x) => Ok::<bool, VmError>(!x),
            None => Err(VmError::Deferred),
        }),
{
    match eq(a, b, heap) {
        Ok(x) => Ok(!x),
        Err(e) => Err(e),
    }
}

/// The decimal that `v` refers to as an unscaled integer and a scale, when
/// it is one that decimal operations take.
pub open spec fn dec_at(h: Seq<HeapObj>, v: Value) -> Option<(int, int)> {
    match v {
        Value::Obj(i) => if i < h.len() {
            match h[i as int] {
                HeapObj::Decimal(d) => if scale_ok(d) { Some((dec_unscaled(d), d.scale as int)) } else { None },
                _ => None,
            }
        } else {
            None
        },
        _ => None,
    }
}

/// `a < b` for two integers, two bigints, two decimals, or a decimal and
/// an integer; any other pair goes through a conversion to float, which is
/// left to the caller.
pub open spec fn less_than(h: Seq<HeapObj>, a: Value, b: Value) -> Result<bool, VmError> {
    match (a, b) {
        (Value::Int(x), Value::Int(y)) => Ok(x < y),
        (Value::Obj(i), Value::Obj(j)) => if i < h.len() && j < h.len() {
            match (h[i as int], h[j as int]) {
                (HeapObj::BigInt(x), HeapObj::BigInt(y)) => Ok(big_value(x) < big_value(y)),
                _ => match (dec_at(h, a), dec_at(h, b)) {
                    (Some((m1, s1)), Some((m2, s2))) => Ok(dec_below(m1, s1, m2, s2)),
                    _ => Err(VmError::Deferred),
                },
            }
        } else {
            Err(VmError::Deferred)
        },
        (Value::Obj(_), Value::Int(y)) => match dec_at(h, a) {
            Some((m, s)) => Ok(dec_below(m, s, y as int, 0)),
            None => Err(VmError::Deferred),
        },
        (Value::Int(x), Value::Obj(_)) => match dec_at(h, b) {
            Some((m, s)) => Ok(dec_below(x as int, 0, m, s)),
            None => Err(VmError::Deferred),
        },
        _ => Err(VmError::Deferred),
    }
}

/// The decimal that `v` refers to, when it is one that decimal operations
/// take.
fn dec_in<'h>(heap: &'h Heap, v: Value) -> (r: Option<&'h DecNum>)
    ensures
        match dec_at(heap@, v) {
            Some((m, s)) => r matches Some(d) && dec_unscaled(*d) == m && d.scale == s && scale_ok(*d),
            None => r is None,
        },
{
    match v {
        Value::Obj(i) => match heap.get(i) {
            Some(HeapObj::Decimal(d)) => if scale_within(d) { Some(d) } else { None },
            _ => None,
        },
        _ => None,
    }
}

/// `a < b`.
pub fn lt_heap(a: Value, b: Value, heap: &Heap) -> (r: Result<bool, VmError>)
    ensures
        r == less_than(heap@, a, b),
{
    match (a, b) {
        (Value::Int(x), Value::Int(y)) => Ok(x < y),
        (Value::Obj(i), Value::Obj(j)) => match (heap.get(i), heap.get(j)) {
            (Some(HeapObj::BigInt(x)), Some(HeapObj::BigInt(y))) => Ok(big_lt(x, y)),
            (Some(_), Some(_)) => match (dec_in(heap, a), dec_in(heap, b)) {
                (Some(x), Some(y)) => Ok(dec_lt(x, y)),
                _ => Err(VmError::Deferred),
            },
            _ => Err(VmError::Deferred),
        },
        (Value::Obj(_), Value::Int(y)) => match dec_in(heap, a) {
            Some(x) => Ok(dec_lt(x, &dec_from_int(y))),
            None => Err(VmError::Deferred),
        },
        (Value::Int(x), Value::Obj(_)) => match dec_in(heap, b) {
            Some(y) => Ok(dec_lt(&dec_from_int(x), y)),
            None => Err(VmError::Deferred),
        },
        _ => Err(VmError::Deferred),
    }
}

/// `a > b`: `b < a`.
pub fn gt_heap(a: Value, b: Value, heap: &Heap) -> (r: Result<bool, VmError>)
    ensures
        r == less_than(heap@, b, a),
{
    lt_heap(b, a, heap)
}

/// `a <= b`: for two integers directly, else `!(a > b)`.
pub fn lte_heap(a: Value, b: Value, heap: &Heap) -> (r: Result<bool, VmError>)
    ensures
        r == (match (a, b) {
            (Value::Int(x), Value::Int(y)) => Ok::<bool, VmError>(x <= y),
            _ => match less_than(heap@, b, a) {
                Ok(g) => Ok(!g),
                Err(e) => Err(e),
            },
        }),
{
    if let (Value::Int(x), Value::Int(y)) = (a, b) {
        return Ok(x <= y);
    }
    match gt_heap(a, b, heap) {
        Ok(g) => Ok(!g),
        Err(e) => Err(e),
    }
}

/// `a >= b`: for two integers directly, else `!(a < b)`.
pub fn gte_heap(a: Value, b: Value, heap: &Heap) -> (r: Result<bool, VmError>)
    ensures
        r == (match (a, b) {
            (Value::Int(x), Value::Int(y)) => Ok::<bool, VmError>(x >= y),
            _ => match less_than(heap@, a, b) {
                Ok(l) => Ok(!l),
                Err(e) => Err(e),
            },
        }),
{
    if let (Value::Int(x), Value::Int(y)) = (a, b) {
        return Ok(x >= y);
    }
    match lt_heap(a, b, heap) {
        Ok(l) => Ok(!l),
        Err(e) => Err(e),
    }
}

/// `!a`: the boolean opposite of `a`'s truthiness.
pub fn logical_not(a: Value) -> (r: Value)
    ensures
        r == Value::Bool(!truthy(a)),
{
    Value::Bool(!a.is_truthy())
}

/// Every value but a float equals itself.
pub proof fn lemma_eq_reflexive(h: Seq<HeapObj>, a: Value)
    requires
        !(a is Float),
    ensures
        values_eq(h, a, a) == Some(true),
{
}

/// Every object of `h` is one a heap can hold.
pub open spec fn objs_ok(h: Seq<HeapObj>) -> bool {
    forall|i: int| 0 <= i < h.len() ==> crate::heap::obj_ok(#[trigger] h[i])
}

/// When each of `n` distinct keys of `fa` is a key of `fb`, and `fb` has
/// `n` distinct keys, each key of `fb` is a key of `fa`.
proof fn lemma_keys_cover(fa: Seq<(Seq<char>, Value)>, fb: Seq<(Seq<char>, Value)>, j: int)
    requires
        fa.len() == fb.len(),
        crate::heap::keys_distinct(fa),
        crate::heap::keys_distinct(fb),
        forall|i: int| 0 <= i < fa.len() ==> #[trigger] key_index(fb, fa[i].0) is Some,
        0 <= j < fb.len(),
    ensures
        key_index(fa, fb[j].0) is Some,
{
    if key_index(fa, fb[j].0) is None {
        let n = fa.len() as int;
        let f = |i: int| key_index(fb, fa[i].0)->0;
        let dom = vstd::set_lib::set_int_range(0, n);
        let rng = vstd::set_lib::set_int_range(0, n).remove(j);
        assert forall|i: int| dom.contains(i) implies 0 <= #[trigger] f(i) < n && fb[f(i)].0 == fa[i].0 by {
            assert(key_index(fb, fa[i].0) is Some);
        }
        assert(vstd::relations::injective_on(f, dom)) by {
            assert forall|x1: int, x2: int| dom.contains(x1) && dom.contains(x2) && #[trigger] f(x1) == #[trigger] f(x2) implies x1 == x2 by {
                if x1 != x2 {
                    assert(fa[x1].0 != fa[x2].0);
                }
            }
        }
        vstd::set_lib::lemma_int_range(0, n);
        vstd::set_lib::lemma_map_size(dom, dom.map(f), f);
        assert(dom.map(f).subset_of(rng)) by {
            assert forall|y: int| dom.map(f).contains(y) implies rng.contains(y) by {
                let i = choose|i: int| dom.contains(i) && f(i) == y;
                if y == j {
                    assert(fb[j].0 == fa[i].0);
                    assert(fa[i].0 == fb[j].0);
                }
            }
        }
        vstd::set_lib::lemma_len_subset(dom.map(f), rng);
    }
}

/// The answer over the first `n` fields: false when some field fails,
/// else left to the caller when some field is, else true.
proof fn lemma_fields_shape(h: Seq<HeapObj>, fa: Seq<(Seq<char>, Value)>, fb: Seq<(Seq<char>, Value)>, d: nat, n: nat)
    ensures
        fields_eq_at(h, fa, fb, d, n) == if exists|i: int| 0 <= i < n && #[trigger] field_matches(h, fa, fb, d, i) == Some(false) {
            Some(false)
        } else if exists|i: int| 0 <= i < n && #[trigger] field_matches(h, fa, fb, d, i) is None {
            None
        } else {
            Some(true)
        },
    decreases n,
{
    if n > 0 {
        lemma_fields_shape(h, fa, fb, d, (n - 1) as nat);
        let q = field_matches(h, fa, fb, d, n - 1);
        if exists|i: int| 0 <= i < n - 1 && #[trigger] field_matches(h, fa, fb, d, i) == Some(false) {
            let i = choose|i: int| 0 <= i < n - 1 && #[trigger] field_matches(h, fa, fb, d, i) == Some(false);
            assert(0 <= i < n && field_matches(h, fa, fb, d, i) == Some(false));
        } else if q == Some(false) {
            assert(field_matches(h, fa, fb, d, n - 1) == Some(false));
        } else {
            assert(!exists|i: int| 0 <= i < n && #[trigger] field_matches(h, fa, fb, d, i) == Some(false)) by {
                if exists|i: int| 0 <= i < n && #[trigger] field_matches(h, fa, fb, d, i) == Some(false) {
                    let i = choose|i: int| 0 <= i < n && #[trigger] field_matches(h, fa, fb, d, i) == Some(false);
                    if i < n - 1 {
                        assert(0 <= i < n - 1 && field_matches(h, fa, fb, d, i) == Some(false));
                    }
                }
            }
            if exists|i: int| 0 <= i < n - 1 && #[trigger] field_matches(h, fa, fb, d, i) is None {
                let i = choose|i: int| 0 <= i < n - 1 && #[trigger] field_matches(h, fa, fb, d, i) is None;
                assert(0 <= i < n && field_matches(h, fa, fb, d, i) is None);
            } else if q is None {
                assert(field_matches(h, fa, fb, d, n - 1) is None);
            } else {
                assert(!exists|i: int| 0 <= i < n && #[trigger] field_matches(h, fa, fb, d, i) is None) by {
                    if exists|i: int| 0 <= i < n && #[trigger] field_matches(h, fa, fb, d, i) is None {
                        let i = choose|i: int| 0 <= i < n && #[trigger] field_matches(h, fa, fb, d, i) is None;
                        if i < n - 1 {
                            assert(0 <= i < n - 1 && field_matches(h, fa, fb, d, i) is None);
                        }
                    }
                }
            }
        }
    }
}

/// Field `i` of `fa` found as field `j` of `fb` is found back as field `i`.
proof fn lemma_key_back(fa: Seq<(Seq<char>, Value)>, fb: Seq<(Seq<char>, Value)>, i: int, j: int)
    requires
        crate::heap::keys_distinct(fa),
        0 <= i < fa.len(),
        key_index(fb, fa[i].0) == Some(j),
    ensures
        0 <= j < fb.len(),
        fb[j].0 == fa[i].0,
        key_index(fa, fb[j].0) == Some(i),
{
    let k = key_index(fa, fb[j].0)->0;
    assert(fa[i].0 == fb[j].0);
    assert(key_index(fa, fb[j].0) is Some);
    if k != i {
        assert(fa[k].0 != fa[i].0);
    }
}

/// The hypotheses of the record laws: two field lists of one length, each
/// naming every field once.
pub open spec fn records_ok(fa: Seq<(Seq<char>, Value)>, fb: Seq<(Seq<char>, Value)>) -> bool {
    &&& fa.len() == fb.len()
    &&& crate::heap::keys_distinct(fa)
    &&& crate::heap::keys_distinct(fb)
}

/// A field of `fa` that fails against `fb` has a counterpart in `fb` that
/// fails against `fa`.
proof fn lemma_false_transfers(h: Seq<HeapObj>, fa: Seq<(Seq<char>, Value)>, fb: Seq<(Seq<char>, Value)>, d: nat)
    requires
        objs_ok(h),
        records_ok(fa, fb),
        exists|i: int| 0 <= i < fa.len() && #[trigger] field_matches(h, fa, fb, d, i) == Some(false),
    ensures
        exists|j: int| 0 <= j < fb.len() && #[trigger] field_matches(h, fb, fa, d, j) == Some(false),
    decreases d, 3nat, 0nat,
{
    let i = choose|i: int| 0 <= i < fa.len() && #[trigger] field_matches(h, fa, fb, d, i) == Some(false);
    match key_index(fb, fa[i].0) {
        Some(j) => {
            lemma_key_back(fa, fb, i, j);
            lemma_member_sym(h, fa[i].1, fb[j].1, d);
            assert(field_matches(h, fb, fa, d, j) == Some(false));
        },
        None => {
            if forall|j: int| 0 <= j < fb.len() ==> #[trigger] key_index(fa, fb[j].0) is Some {
                lemma_keys_cover(fb, fa, i);
            }
            let j = choose|j: int| 0 <= j < fb.len() && !(#[trigger] key_index(fa, fb[j].0) is Some);
            assert(field_matches(h, fb, fa, d, j) == Some(false));
        },
    }
}

/// When no field fails either way, a field of `fa` whose comparison is left
/// to the caller has such a counterpart in `fb`.
proof fn lemma_none_transfers(h: Seq<HeapObj>, fa: Seq<(Seq<char>, Value)>, fb: Seq<(Seq<char>, Value)>, d: nat)
    requires
        objs_ok(h),
        records_ok(fa, fb),
        forall|i: int| 0 <= i < fa.len() ==> #[trigger] field_matches(h, fa, fb, d, i) != Some(false),
        exists|i: int| 0 <= i < fa.len() && #[trigger] field_matches(h, fa, fb, d, i) is None,
    ensures
        exists|j: int| 0 <= j < fb.len() && #[trigger] field_matches(h, fb, fa, d, j) is None,
    decreases d, 3nat, 0nat,
{
    let i = choose|i: int| 0 <= i < fa.len() && #[trigger] field_matches(h, fa, fb, d, i) is None;
    let j = key_index(fb, fa[i].0)->0;
    lemma_key_back(fa, fb, i, j);
    lemma_member_sym(h, fa[i].1, fb[j].1, d);
    assert(field_matches(h, fb, fa, d, j) is None);
}

/// Equality of values does not depend on their order.
proof fn lemma_values_sym(h: Seq<HeapObj>, a: Value, b: Value, d: nat)
    requires
        objs_ok(h),
    ensures
        values_eq_at(h, a, b, d) == values_eq_at(h, b, a, d),
    decreases d, 1nat, 0nat,
{
    match (a, b) {
        (Value::Obj(i), Value::Obj(j)) => {
            if i != j && i < h.len() && j < h.len() {
                match (h[i as int], h[j as int]) {
                    (HeapObj::Decimal(x), HeapObj::Decimal(y)) => {
                        assert(crate::decimal::common_scale(x.scale as int, y.scale as int) == crate::decimal::common_scale(y.scale as int, x.scale as int));
                    },
                    (HeapObj::EnumVariant(x), HeapObj::EnumVariant(y)) => {
                        if d > 0 {
                            lemma_member_sym(h, x.payload, y.payload, (d - 1) as nat);
                        }
                    },
                    (HeapObj::Tuple(x), HeapObj::Tuple(y)) => {
                        if d > 0 && x@.len() == y@.len() {
                            lemma_elems_sym(h, x@, y@, (d - 1) as nat, x@.len());
                        }
                    },
                    (HeapObj::Record(x), HeapObj::Record(y)) => {
                        if d > 0 && x@.len() == y@.len() {
                            assert(crate::heap::obj_ok(h[i as int]));
                            assert(crate::heap::obj_ok(h[j as int]));
                            lemma_fields_sym(h, fields_view(x@), fields_view(y@), (d - 1) as nat);
                        }
                    },
                    _ => {},
                }
            }
        },
        _ => {},
    }
}

/// Equality of members does not depend on their order.
proof fn lemma_member_sym(h: Seq<HeapObj>, a: Value, b: Value, d: nat)
    requires
        objs_ok(h),
    ensures
        member_eq_at(h, a, b, d) == member_eq_at(h, b, a, d),
    decreases d, 2nat, 0nat,
{
    match (array_of(h, a), array_of(h, b)) {
        (Some(x), Some(y)) => {
            if d > 0 && x.len() == y.len() {
                lemma_elems_sym(h, x, y, (d - 1) as nat, x.len());
            }
        },
        _ => {
            lemma_values_sym(h, a, b, d);
        },
    }
}

/// Pairwise equality of elements does not depend on the order of the lists.
proof fn lemma_elems_sym(h: Seq<HeapObj>, x: Seq<Value>, y: Seq<Value>, d: nat, n: nat)
    requires
        objs_ok(h),
    ensures
        elems_eq_at(h, x, y, d, n) == elems_eq_at(h, y, x, d, n),
    decreases d, 3nat, n,
{
    if n > 0 {
        lemma_elems_sym(h, x, y, d, (n - 1) as nat);
        lemma_member_sym(h, x[n - 1], y[n - 1], d);
    }
}

/// Equality of records does not depend on their order.
proof fn lemma_fields_sym(h: Seq<HeapObj>, fa: Seq<(Seq<char>, Value)>, fb: Seq<(Seq<char>, Value)>, d: nat)
    requires
        objs_ok(h),
        records_ok(fa, fb),
    ensures
        fields_eq_at(h, fa, fb, d, fa.len()) == fields_eq_at(h, fb, fa, d, fb.len()),
    decreases d, 3nat, fa.len(),
{
    if fa.len() > 0 {
        lemma_fields_shape(h, fa, fb, d, fa.len());
        lemma_fields_shape(h, fb, fa, d, fb.len());
        if exists|i: int| 0 <= i < fa.len() && #[trigger] field_matches(h, fa, fb, d, i) == Some(false) {
            lemma_false_transfers(h, fa, fb, d);
        } else if exists|j: int| 0 <= j < fb.len() && #[trigger] field_matches(h, fb, fa, d, j) == Some(false) {
            lemma_false_transfers(h, fb, fa, d);
        } else {
            if exists|i: int| 0 <= i < fa.len() && #[trigger] field_matches(h, fa, fb, d, i) is None {
                lemma_none_transfers(h, fa, fb, d);
            }
            if exists|j: int| 0 <= j < fb.len() && #[trigger] field_matches(h, fb, fa, d, j) is None {
                lemma_none_transfers(h, fb, fa, d);
            }
        }
    }
}

/// Equality does not depend on the order of its operands: `a == b` and
/// `b == a` give the same answer, decided or left to the caller alike.
pub proof fn lemma_eq_symmetric(h: Seq<HeapObj>, a: Value, b: Value)
    requires
        objs_ok(h),
    ensures
        values_eq(h, a, b) == values_eq(h, b, a),
{
    lemma_values_sym(h, a, b, eq_depth(h));
}

/// `!!a` is the truthiness of `a`.
pub proof fn lemma_not_not(a: Value)
    ensures
        Value::Bool(!truthy(Value::Bool(!truthy(a)))) == Value::Bool(truthy(a)),
{
}

/// `a != b` answers the opposite of `a == b`, and `a > b` answers `b < a`.
pub proof fn lemma_comparison_duals(h: Seq<HeapObj>, a: Value, b: Value)
    ensures
        decided(values_eq(h, a, b)) matches Ok(x) ==> values_eq(h, a, b) == Some(x),
        values_eq(h, a, b) is None ==> decided(values_eq(h, a, b)) == Err::<bool, VmError>(VmError::Deferred),
        (a is Int && b is Int) ==> less_than(h, a, b) == Ok::<bool, VmError>(a->Int_0 < b->Int_0)
            && less_than(h, b, a) == Ok::<bool, VmError>(a->Int_0 > b->Int_0),
{
}

/// Pairwise equal integer elements are equal as members.
proof fn lemma_int_elems_equal(h: Seq<HeapObj>, x: Seq<Value>, d: nat, n: nat)
    requires
        n <= x.len(),
        forall|k: int| 0 <= k < x.len() ==> x[k] is Int,
    ensures
        elems_eq_at(h, x, x, d, n) == Some(true),
    decreases n,
{
    if n > 0 {
        lemma_int_elems_equal(h, x, d, (n - 1) as nat);
        let e = x[n - 1];
        assert(e is Int);
        assert(array_of(h, e) is None);
        assert(values_eq_at(h, e, e, d) == Some(true));
        assert(member_eq_at(h, e, e, d) == Some(true));
    }
}

/// Two different arrays are never `==` (arrays compare by identity), but as
/// members of a value type two arrays with the same integer elements are
/// equal (members compare arrays by their elements).
pub proof fn lemma_arrays_identity_and_members(h: Seq<HeapObj>, i: usize, j: usize)
    requires
        i != j,
        i < h.len(),
        j < h.len(),
        h[i as int] is Array,
        h[j as int] is Array,
        array_of(h, Value::Obj(i)) == array_of(h, Value::Obj(j)),
        forall|k: int| 0 <= k < array_of(h, Value::Obj(i))->0.len() ==> (#[trigger] array_of(h, Value::Obj(i))->0[k]) is Int,
        h.len() > 0,
    ensures
        values_eq(h, Value::Obj(i), Value::Obj(j)) == Some(false),
        member_eq_at(h, Value::Obj(i), Value::Obj(j), eq_depth(h)) == Some(true),
{
    let x = array_of(h, Value::Obj(i))->0;
    lemma_int_elems_equal(h, x, (eq_depth(h) - 1) as nat, x.len());
}

/// Two integers that differ.
pub open spec fn ints_differ(u: Value, v: Value) -> bool {
    u matches Value::Int(a) && v matches Value::Int(b) && a != b
}

/// Two different tuples of one length are equal only when their elements
/// are pairwise equal: a position whose members compare unequal (two
/// different integers, say) makes the tuples unequal; tuples whose elements
/// are the same integers are equal.
pub proof fn lemma_tuple_eq(h: Seq<HeapObj>, i: usize, j: usize, x: Seq<Value>, y: Seq<Value>, k: int)
    requires
        i != j,
        i < h.len(),
        j < h.len(),
        h[i as int] matches HeapObj::Tuple(tx) && tx@ == x,
        h[j as int] matches HeapObj::Tuple(ty) && ty@ == y,
        x.len() == y.len(),
    ensures
        0 <= k < x.len() && member_eq_at(h, x[k], y[k], (eq_depth(h) - 1) as nat) == Some(false)
            ==> values_eq(h, Value::Obj(i), Value::Obj(j)) == Some(false),
        0 <= k < x.len() && ints_differ(x[k], y[k])
            ==> values_eq(h, Value::Obj(i), Value::Obj(j)) == Some(false),
        (forall|m: int| 0 <= m < x.len() ==> #[trigger] x[m] is Int && x[m] == y[m])
            ==> values_eq(h, Value::Obj(i), Value::Obj(j)) == Some(true),
{
    let d = (eq_depth(h) - 1) as nat;
    if 0 <= k < x.len() {
        if x[k] is Int && y[k] is Int {
            assert(array_of(h, x[k]) is None);
            assert(member_eq_at(h, x[k], y[k], d) == values_eq_at(h, x[k], y[k], d));
        }
        if member_eq_at(h, x[k], y[k], d) == Some(false) {
            assert(elems_eq_at(h, x, y, d, (k + 1) as nat) == Some(false));
            lemma_elems_false_stays(h, x, y, d, (k + 1) as nat, x.len());
        }
    }
    if forall|m: int| 0 <= m < x.len() ==> #[trigger] x[m] is Int && x[m] == y[m] {
        assert(x =~= y);
        lemma_int_elems_equal(h, x, d, x.len());
    }
}

/// Two different records of one length are unequal when a field of the
/// first is missing from the second, or holds a different integer there.
pub proof fn lemma_record_ne(h: Seq<HeapObj>, i: usize, j: usize, fa: Seq<(Seq<char>, Value)>, fb: Seq<(Seq<char>, Value)>, k: int)
    requires
        i != j,
        i < h.len(),
        j < h.len(),
        h[i as int] matches HeapObj::Record(x) && fields_view(x@) == fa,
        h[j as int] matches HeapObj::Record(y) && fields_view(y@) == fb,
        fa.len() == fb.len(),
        0 <= k < fa.len(),
        (forall|m: int| 0 <= m < fb.len() ==> #[trigger] fb[m].0 != fa[k].0)
            || (exists|m: int| 0 <= m < fb.len() && #[trigger] fb[m].0 == fa[k].0 && ints_differ(fa[k].1, fb[m].1)),
        crate::heap::keys_distinct(fb),
    ensures
        values_eq(h, Value::Obj(i), Value::Obj(j)) == Some(false),
{
    let d = (eq_depth(h) - 1) as nat;
    if forall|m: int| 0 <= m < fb.len() ==> #[trigger] fb[m].0 != fa[k].0 {
        assert(key_index(fb, fa[k].0) is None);
    } else {
        let m = choose|m: int| 0 <= m < fb.len() && #[trigger] fb[m].0 == fa[k].0 && ints_differ(fa[k].1, fb[m].1);
        assert(key_index(fb, fa[k].0) is Some);
        let c = key_index(fb, fa[k].0)->0;
        if c != m {
            assert(fb[c].0 != fb[m].0);
        }
        assert(array_of(h, fa[k].1) is None);
        assert(member_eq_at(h, fa[k].1, fb[m].1, d) == Some(false));
    }
    assert(field_matches(h, fa, fb, d, k) == Some(false));
    assert(fields_eq_at(h, fa, fb, d, (k + 1) as nat) == Some(false));
    lemma_fields_false_stays(h, fa, fb, d, (k + 1) as nat, fa.len());
}

/// Decimals compare as the numbers they stand for: of two decimals exactly
/// one is less than, equal to or greater than the other; trailing zeros do
/// not matter (`m·10^-s` equals `10m·10^-(s+1)`, so `1.5 == 1.50`); and a
/// decimal of scale zero compares with an integer as its unscaled value
/// does.
pub proof fn lemma_decimal_order(h: Seq<HeapObj>, i: usize, j: usize, y: i64)
    requires
        i != j,
        dec_at(h, Value::Obj(i)) is Some,
        dec_at(h, Value::Obj(j)) is Some,
    ensures
        ({
            let a = Value::Obj(i);
            let b = Value::Obj(j);
            let lt = less_than(h, a, b) == Ok::<bool, VmError>(true);
            let gt = less_than(h, b, a) == Ok::<bool, VmError>(true);
            let eq = values_eq(h, a, b) == Some(true);
            &&& less_than(h, a, b) is Ok
            &&& less_than(h, b, a) is Ok
            &&& values_eq(h, a, b) is Some
            &&& (lt && !eq && !gt) || (!lt && eq && !gt) || (!lt && !eq && gt)
        }),
        ({
            let (m, s) = dec_at(h, Value::Obj(i))->0;
            dec_at(h, Value::Obj(j)) == Some((m * 10, s + 1)) ==> values_eq(h, Value::Obj(i), Value::Obj(j)) == Some(true)
        }),
        ({
            let (m, s) = dec_at(h, Value::Obj(i))->0;
            s == 0 ==> {
                &&& less_than(h, Value::Obj(i), Value::Int(y)) == Ok::<bool, VmError>(m < y)
                &&& less_than(h, Value::Int(y), Value::Obj(i)) == Ok::<bool, VmError>(y < m)
                &&& values_eq(h, Value::Obj(i), Value::Int(y)) == Some(m == y)
            }
        }),
{
    reveal_with_fuel(crate::decimal::pow10, 2);
    let (m1, s1) = dec_at(h, Value::Obj(i))->0;
    let (m2, s2) = dec_at(h, Value::Obj(j))->0;
    assert(crate::decimal::common_scale(s1, s2) == crate::decimal::common_scale(s2, s1));
    assert(h[i as int] is Decimal && h[j as int] is Decimal);
    assert(crate::decimal::pow10(0) == 1);
    assert(crate::decimal::pow10(1) == 10);
    if dec_at(h, Value::Obj(j)) == Some((m1 * 10, s1 + 1)) {
        assert(crate::decimal::common_scale(s1, s1 + 1) == s1 + 1);
        assert(((s1 + 1) - s1) as nat == 1);
        assert(((s1 + 1) - (s1 + 1)) as nat == 0);
        assert(crate::decimal::at_scale(m1, s1, s1 + 1) == m1 * 10);
        assert(crate::decimal::at_scale(m1 * 10, s1 + 1, s1 + 1) == m1 * 10);
    }
    if s1 == 0 {
        assert((0int - 0int) as nat == 0);
        assert(crate::decimal::at_scale(m1, 0, 0) == m1);
        assert(crate::decimal::at_scale(y as int, 0, 0) == y);
        assert(same_dec(m1, 0, y as int, 0) == (m1 == y));
        assert(obj_equals_int(h, i, y) == Some(m1 == y));
    }
}

/// Equality of scalars and strings: integers and booleans are equal by
/// value, `null` equals only `null`, and two strings are equal exactly when
/// they hold the same characters.
pub proof fn lemma_scalar_eq(h: Seq<HeapObj>, a: i64, b: i64, p: bool, q: bool, i: usize, j: usize)
    ensures
        values_eq(h, Value::Int(a), Value::Int(b)) == Some(a == b),
        values_eq(h, Value::Bool(p), Value::Bool(q)) == Some(p == q),
        values_eq(h, Value::Null, Value::Null) == Some(true),
        values_eq(h, Value::Null, Value::Int(a)) == Some(false),
        values_eq(h, Value::Bool(p), Value::Null) == Some(false),
        i < h.len() && j < h.len() && (h[i as int] is Str) && (h[j as int] is Str) ==> values_eq(h, Value::Obj(i), Value::Obj(j))
            == Some(h[i as int]->Str_0@ == h[j as int]->Str_0@),
{
}

} // verus!
