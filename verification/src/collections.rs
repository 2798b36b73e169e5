//! Index reads and writes, and the array and object operations.
use vstd::prelude::*;
use crate::value::Value;
use crate::heap::{Heap, HeapObj, Field, MapEntry, RangeData, range_ok, range_bound, obj_ok, fields_view, keys_distinct, key_index, field_value};
use crate::int_ops::{abs, trunc_div, in_int_range};
use crate::error::{RuntimeError, VmError};

verus! {

/// Whether two character strings are equal.
pub fn chars_eq(a: &Vec<char>, b: &Vec<char>) -> (r: bool)
    ensures
        r == (a@ == b@),
{
    if a.len() != b.len() {
        return false;
    }
    let mut i: usize = 0;
    while i < a.len()
        invariant
            a@.len() == b@.len(),
            i <= a@.len(),
            forall|k: int| 0 <= k < i ==> a@[k] == b@[k],
        decreases a@.len() - i,
    {
        if a[i] != b[i] {
            return false;
        }
        i = i + 1;
    }
    assert(a@ =~= b@);
    true
}

/// A copy of a character string.
pub fn copy_chars(a: &Vec<char>) -> (r: Vec<char>)
    ensures
        r@ == a@,
{
    let mut r = Vec::new();
    let mut i: usize = 0;
    while i < a.len()
        invariant
            i <= a@.len(),
            r@ == a@.take(i as int),
        decreases a@.len() - i,
    {
        r.push(a[i]);
        assert(a@.take(i + 1) =~= a@.take(i as int).push(a@[i as int]));
        i = i + 1;
    }
    assert(a@.take(a@.len() as int) =~= a@);
    r
}

/// The position of the field named `key` in `fs`.
pub fn find_field(fs: &Vec<Field>, key: &Vec<char>) -> (r: Option<usize>)
    requires
        keys_distinct(fields_view(fs@)),
    ensures
        r matches Some(i) ==> key_index(fields_view(fs@), key@) == Some(i as int),
        r is None ==> key_index(fields_view(fs@), key@) is None,
{
    let ghost fv = fields_view(fs@);
    let mut i: usize = 0;
    while i < fs.len()
        invariant
            i <= fs@.len(),
            fv == fields_view(fs@),
            keys_distinct(fv),
            forall|k: int| 0 <= k < i ==> fv[k].0 != key@,
        decreases fs@.len() - i,
    {
        if chars_eq(&fs[i].key, key) {
            assert(fv[i as int].0 == key@);
            let ghost c = choose|j: int| 0 <= j < fv.len() && fv[j].0 == key@;
            proof {
                assert(keys_distinct(fv));
                if c != i as int {
                    assert(fv[c].0 != fv[i as int].0);
                }
            }
            return Some(i);
        }
        i = i + 1;
    }
    None
}

/// A copy of a list of names.
pub(crate) fn copy_names(ns: &Vec<Vec<char>>) -> (r: Vec<Vec<char>>)
    ensures
        r@.len() == ns@.len(),
        forall|i: int| 0 <= i < ns@.len() ==> #[trigger] r@[i]@ == ns@[i]@,
{
    let mut r: Vec<Vec<char>> = Vec::new();
    let mut k: usize = 0;
    while k < ns.len()
        invariant
            k <= ns@.len(),
            r@.len() == k,
            forall|i: int| 0 <= i < k ==> #[trigger] r@[i]@ == ns@[i]@,
        decreases ns@.len() - k,
    {
        r.push(copy_chars(&ns[k]));
        k = k + 1;
    }
    r
}

/// The number of elements of a range.
pub open spec fn range_count(r: RangeData) -> int {
    let diff = r.end - r.start;
    if r.inclusive {
        trunc_div(diff, r.step as int) + 1
    } else {
        trunc_div(diff + r.step - 1, r.step as int)
    }
}

/// The field name that `key` stands for when it indexes an object: its
/// text as a string joins it (see [`crate::arith::value_text`]); `None` when
/// that text is left to the caller.
pub open spec fn string_key(h: Seq<HeapObj>, key: Value) -> Option<Seq<char>> {
    crate::arith::value_text(h, key)
}

/// What an index read gives, and the string it allocates when it reads a
/// character of a string.
pub enum IndexRead {
    /// The element read.
    Elem(Value),
    /// A one-character string holding this character, allocated for the result.
    NewChar(char),
    Fail(VmError),
}

/// The element at `k` of `v`, `null` out of range.
pub open spec fn elem_or_null(v: Seq<Value>, k: int) -> Value {
    if 0 <= k < v.len() { v[k] } else { Value::Null }
}

/// What `obj[key]` reads on heap `h`.
pub open spec fn index_read(h: Seq<HeapObj>, obj: Value, key: Value) -> IndexRead {
    match obj {
        Value::Obj(i) if i < h.len() => match h[i as int] {
            HeapObj::Array(v) => match key {
                Value::Int(k) => IndexRead::Elem(elem_or_null(v@, k as int)),
                _ => IndexRead::Fail(VmError::Deferred),
            },
            HeapObj::Tuple(v) => match key {
                Value::Int(k) => IndexRead::Elem(elem_or_null(v@, k as int)),
                _ => IndexRead::Fail(VmError::Deferred),
            },
            HeapObj::Buffer(b) => match key {
                Value::Int(k) => IndexRead::Elem(
                    if 0 <= k < b@.len() { Value::Int(b@[k as int] as i64) } else { Value::Null },
                ),
                _ => IndexRead::Fail(VmError::Deferred),
            },
            HeapObj::Str(cs) => match key {
                Value::Int(k) => if 0 <= k < cs@.len() {
                    IndexRead::NewChar(cs@[k as int])
                } else {
                    IndexRead::Elem(Value::Null)
                },
                _ => IndexRead::Fail(VmError::Deferred),
            },
            HeapObj::Object(fs) => match string_key(h, key) {
                Some(k) => IndexRead::Elem(field_value(fields_view(fs@), k)),
                None => IndexRead::Fail(VmError::Deferred),
            },
            HeapObj::Record(fs) => match string_key(h, key) {
                Some(k) => IndexRead::Elem(field_value(fields_view(fs@), k)),
                None => IndexRead::Fail(VmError::Deferred),
            },
            HeapObj::Range(r) => match key {
                Value::Int(k) => IndexRead::Elem(
                    if 0 <= k < range_count(r) { Value::Int((r.start + k * r.step) as i64) } else { Value::Null },
                ),
                _ => IndexRead::Fail(VmError::Deferred),
            },
            _ => IndexRead::Fail(VmError::Runtime(RuntimeError::NotIndexable { write: false })),
        },
        _ => IndexRead::Fail(VmError::Runtime(RuntimeError::NotIndexable { write: false })),
    }
}

/// An index read of `obj[key]` took heap `old_h` to `new_h` and gave `r`:
/// an element leaves the heap as it was; a character of a string is given
/// as a new one-character string at the end of the heap.
pub open spec fn read_done(old_h: Seq<HeapObj>, new_h: Seq<HeapObj>, obj: Value, key: Value, r: Result<Value, VmError>) -> bool {
    match index_read(old_h, obj, key) {
        IndexRead::Elem(v) => r == Ok::<Value, VmError>(v) && new_h == old_h,
        IndexRead::NewChar(c) => r == Ok::<Value, VmError>(Value::Obj(old_h.len() as usize))
            && new_h.len() == old_h.len() + 1
            && new_h.take(old_h.len() as int) == old_h
            && (new_h.last() matches HeapObj::Str(cs) && cs@ == seq![c]),
        IndexRead::Fail(e) => r == Err::<Value, VmError>(e) && new_h == old_h,
    }
}

/// The element of `v` at `k` when `k` is in range, else `null`.
fn elem_at(v: &Vec<Value>, k: i64) -> (r: Value)
    ensures
        r == elem_or_null(v@, k as int),
{
    if k >= 0 && (k as u64) < (v.len() as u64) {
        v[k as usize]
    } else {
        Value::Null
    }
}

/// The field name that `key` stands for.
fn string_key_of(heap: &Heap, key: Value) -> (r: Option<Vec<char>>)
    ensures
        r matches Some(cs) ==> string_key(heap@, key) == Some(cs@),
        r is None ==> string_key(heap@, key) is None,
{
    crate::arith::text_of(heap, key)
}

proof fn lemma_trunc_div_small(x: int, d: int)
    requires
        d != 0,
        abs(x) <= 4 * range_bound(),
    ensures
        abs(trunc_div(x, d)) <= abs(x),
{
    let q = abs(x) / abs(d);
    assert(q <= abs(x)) by (nonlinear_arith)
        requires
            abs(d) >= 1,
            abs(x) >= 0,
            q == abs(x) / abs(d),
    ;
}

proof fn lemma_range_element_fits(r: RangeData, k: int)
    requires
        range_ok(r),
        0 <= k < range_count(r),
    ensures
        in_int_range(k * r.step),
        in_int_range(r.start + k * r.step),
{
    let diff = r.end - r.start;
    let s = r.step as int;
    let x = if r.inclusive { diff } else { diff + s - 1 };
    let q = abs(x) / abs(s);
    assert(q * abs(s) <= abs(x)) by (nonlinear_arith)
        requires
            abs(s) >= 1,
            abs(x) >= 0,
            q == abs(x) / abs(s),
    ;
    assert(abs(trunc_div(x, s)) == q);
    assert(abs(x) <= 4 * range_bound());
    assert(k <= q + 1);
    assert(abs(k * s) <= q * abs(s) + abs(s)) by (nonlinear_arith)
        requires
            0 <= k <= q + 1,
            abs(s) >= 1,
    ;
}

/// `obj[key]`: the element of an array, a tuple, a buffer or a range, a
/// one-character string of a string, or a field of an object.
pub fn get_index(obj: Value, key: Value, heap: &mut Heap) -> (r: Result<Value, VmError>)
    requires
        old(heap).wf(),
    ensures
        final(heap).wf(),
        read_done(old(heap)@, final(heap)@, obj, key, r),
{
    let i = match obj {
        Value::Obj(i) => i,
        _ => return Err(VmError::Runtime(RuntimeError::NotIndexable { write: false })),
    };
    let (result, new_char): (Result<Value, VmError>, Option<char>) = match heap.get(i) {
        Some(HeapObj::Array(v)) | Some(HeapObj::Tuple(v)) => match key {
            Value::Int(k) => (Ok(elem_at(v, k)), None),
            _ => (Err(VmError::Deferred), None),
        },
        Some(HeapObj::Buffer(b)) => match key {
            Value::Int(k) => {
                if k >= 0 && (k as u64) < (b.len() as u64) {
                    (Ok(Value::Int(b[k as usize] as i64)), None)
                } else {
                    (Ok(Value::Null), None)
                }
            },
            _ => (Err(VmError::Deferred), None),
        },
        Some(HeapObj::Str(cs)) => match key {
            Value::Int(k) => {
                if k >= 0 && (k as u64) < (cs.len() as u64) {
                    (Ok(Value::Null), Some(cs[k as usize]))
                } else {
                    (Ok(Value::Null), None)
                }
            },
            _ => (Err(VmError::Deferred), None),
        },
        Some(HeapObj::Object(fs)) | Some(HeapObj::Record(fs)) => {
            proof {
                assert(obj_ok(heap@[i as int]));
            }
            match string_key_of(heap, key) {
                Some(k) => match find_field(fs, &k) {
                    Some(at) => (Ok(fs[at].value), None),
                    None => (Ok(Value::Null), None),
                },
                None => (Err(VmError::Deferred), None),
            }
        },
        Some(HeapObj::Range(r)) => match key {
            Value::Int(k) => {
                proof {
                    assert(obj_ok(heap@[i as int]));
                }
                let diff = r.end - r.start;
                let num = if r.inclusive { diff } else { diff + r.step - 1 };
                proof {
                    lemma_trunc_div_small(num as int, r.step as int);
                }
                let q = match crate::int_ops::div_int(num, r.step) {
                    Ok(q) => q,
                    Err(_) => 0,
                };
                let count = if r.inclusive { q + 1 } else { q };
                if k >= 0 && k < count {
                    proof {
                        lemma_range_element_fits(*r, k as int);
                    }
                    (Ok(Value::Int(r.start + k * r.step)), None)
                } else {
                    (Ok(Value::Null), None)
                }
            },
            _ => (Err(VmError::Deferred), None),
        },
        _ => (Err(VmError::Runtime(RuntimeError::NotIndexable { write: false })), None),
    };
    match new_char {
        Some(c) => {
            let mut s = Vec::new();
            s.push(c);
            assert(s@ =~= seq![c]);
            let ghost before = heap@;
            let v = heap.allocate(HeapObj::Str(s));
            assert(heap@.take(before.len() as int) =~= before);
            Ok(v)
        },
        None => result,
    }
}


/// `v` with `val` written at `k`: in place inside the array, appended at its
/// end, and past its end after `null`s up to `k`.
pub open spec fn array_write(v: Seq<Value>, k: int, val: Value) -> Seq<Value> {
    if k < v.len() {
        v.update(k, val)
    } else {
        v + Seq::new((k - v.len()) as nat, |j: int| Value::Null) + seq![val]
    }
}

/// What `obj[key] = val` does to heap `h`.
pub enum IndexWrite {
    /// The array object `i` now holds these elements.
    Array(usize, Seq<Value>),
    /// The object `i` now holds these fields.
    Object(usize, Seq<(Seq<char>, Value)>),
    /// The buffer `i` now holds these bytes.
    Buffer(usize, Seq<u8>),
    /// Nothing changes.
    Unchanged,
    Fail(VmError),
}

/// What `obj[key] = val` does on heap `h`.
pub open spec fn index_write(h: Seq<HeapObj>, obj: Value, key: Value, val: Value) -> IndexWrite {
    match obj {
        Value::Obj(i) if i < h.len() => match h[i as int] {
            HeapObj::Array(v) => match key {
                Value::Int(k) => IndexWrite::Array(i, array_write(v@, k as int, val)),
                _ => IndexWrite::Fail(VmError::Deferred),
            },
            HeapObj::Object(fs) => match string_key(h, key) {
                Some(k) => IndexWrite::Object(i, crate::heap::set_field(fields_view(fs@), k, val)),
                None => IndexWrite::Fail(VmError::Deferred),
            },
            HeapObj::Buffer(b) => match key {
                Value::Int(k) => if 0 <= k < b@.len() {
                    match val {
                        Value::Int(x) => IndexWrite::Buffer(i, b@.update(k as int, x as u8)),
                        _ => IndexWrite::Fail(VmError::Deferred),
                    }
                } else {
                    IndexWrite::Unchanged
                },
                _ => IndexWrite::Fail(VmError::Deferred),
            },
            _ => IndexWrite::Fail(VmError::Runtime(RuntimeError::NotIndexable { write: true })),
        },
        _ => IndexWrite::Fail(VmError::Runtime(RuntimeError::NotIndexable { write: true })),
    }
}

/// The heap after an index write, as `index_write` describes it.
pub open spec fn write_done(old_h: Seq<HeapObj>, new_h: Seq<HeapObj>, w: IndexWrite, r: Result<(), VmError>) -> bool {
    match w {
        IndexWrite::Array(i, v) => r is Ok && new_h.len() == old_h.len()
            && (forall|j: int| 0 <= j < old_h.len() && j != i ==> new_h[j] == old_h[j])
            && (new_h[i as int] matches HeapObj::Array(a) && a@ == v),
        IndexWrite::Object(i, fs) => r is Ok && new_h.len() == old_h.len()
            && (forall|j: int| 0 <= j < old_h.len() && j != i ==> new_h[j] == old_h[j])
            && (new_h[i as int] matches HeapObj::Object(a) && fields_view(a@) == fs),
        IndexWrite::Buffer(i, b) => r is Ok && new_h.len() == old_h.len()
            && (forall|j: int| 0 <= j < old_h.len() && j != i ==> new_h[j] == old_h[j])
            && (new_h[i as int] matches HeapObj::Buffer(a) && a@ == b),
        IndexWrite::Unchanged => r is Ok && new_h == old_h,
        IndexWrite::Fail(e) => r == Err::<(), VmError>(e) && new_h == old_h,
    }
}

/// Writes `val` at `k` of `v`, growing it with `null`s as needed.
fn array_store(v: &mut Vec<Value>, k: usize, val: Value)
    ensures
        final(v)@ == array_write(old(v)@, k as int, val),
{
    let len = v.len();
    if k < len {
        v.set(k, val);
    } else {
        let ghost start = v@;
        while v.len() < k
            invariant
                len == start.len(),
                k >= len,
                v@.len() <= k,
                v@ =~= start + Seq::new((v@.len() - len) as nat, |j: int| Value::Null),
            decreases k - v@.len(),
        {
            v.push(Value::Null);
        }
        v.push(val);
        assert(v@ =~= array_write(start, k as int, val));
    }
}

proof fn lemma_set_field_distinct(fs: Seq<(Seq<char>, Value)>, k: Seq<char>, v: Value)
    requires
        keys_distinct(fs),
    ensures
        keys_distinct(crate::heap::set_field(fs, k, v)),
{
    let r = crate::heap::set_field(fs, k, v);
    match key_index(fs, k) {
        Some(i) => {
            assert forall|a: int, b: int| 0 <= a < r.len() && 0 <= b < r.len() && a != b implies r[a].0 != r[b].0 by {
                if a != i && b != i {
                    assert(fs[a].0 != fs[b].0);
                } else if a == i {
                    assert(fs[b].0 != fs[i].0);
                } else {
                    assert(fs[a].0 != fs[i].0);
                }
            }
        },
        None => {
            assert forall|a: int, b: int| 0 <= a < r.len() && 0 <= b < r.len() && a != b implies r[a].0 != r[b].0 by {
                if a < fs.len() && b < fs.len() {
                    assert(fs[a].0 != fs[b].0);
                } else if a == fs.len() {
                    assert(!(fs[b].0 == k));
                } else {
                    assert(!(fs[a].0 == k));
                }
            }
        },
    }
}

/// Sets field `key` of `fs` to `val`.
pub(crate) fn store_field(fs: &mut Vec<Field>, key: &Vec<char>, val: Value)
    requires
        keys_distinct(fields_view(old(fs)@)),
    ensures
        fields_view(final(fs)@) == crate::heap::set_field(fields_view(old(fs)@), key@, val),
        keys_distinct(fields_view(final(fs)@)),
{
    let ghost before = fields_view(fs@);
    proof {
        lemma_set_field_distinct(before, key@, val);
    }
    match find_field(fs, key) {
        Some(at) => {
            let k = copy_chars(key);
            fs.set(at, Field { key: k, value: val });
            assert(fields_view(fs@) =~= before.update(at as int, (key@, val)));
        },
        None => {
            let k = copy_chars(key);
            fs.push(Field { key: k, value: val });
            assert(fields_view(fs@) =~= before.push((key@, val)));
        },
    }
}

/// `obj[key] = val` on an array, an object or a buffer. Writing past the end
/// of an array fills the gap with `null`s.
pub fn set_index(obj: Value, key: Value, val: Value, heap: &mut Heap) -> (r: Result<(), VmError>)
    requires
        old(heap).wf(),
        obj matches Value::Obj(i) && i < old(heap)@.len() && old(heap)@[i as int] is Array
            ==> (key matches Value::Int(k) ==> 0 <= k < usize::MAX),
    ensures
        final(heap).wf(),
        write_done(old(heap)@, final(heap)@, index_write(old(heap)@, obj, key, val), r),
{
    let i = match obj {
        Value::Obj(i) => i,
        _ => return Err(VmError::Runtime(RuntimeError::NotIndexable { write: true })),
    };
    if i >= heap.len() {
        return Err(VmError::Runtime(RuntimeError::NotIndexable { write: true }));
    }
    let ghost before = heap@;
    let key_str: Option<Vec<char>> = string_key_of(heap, key);
    let kind = match heap.get(i) {
        Some(HeapObj::Array(_)) => 0u8,
        Some(HeapObj::Object(_)) => 1u8,
        Some(HeapObj::Buffer(_)) => 2u8,
        _ => 3u8,
    };
    if kind == 3 {
        return Err(VmError::Runtime(RuntimeError::NotIndexable { write: true }));
    }
    if kind == 0 || kind == 2 {
        match key {
            Value::Int(_) => {},
            _ => return Err(VmError::Deferred),
        }
    }
    if kind == 1 && key_str.is_none() {
        return Err(VmError::Deferred);
    }
    if kind == 2 {
        let k = match key {
            Value::Int(k) => k,
            _ => 0,
        };
        let in_range = match heap.get(i) {
            Some(HeapObj::Buffer(b)) => k >= 0 && (k as u64) < (b.len() as u64),
            _ => false,
        };
        if !in_range {
            return Ok(());
        }
        let x = match val {
            Value::Int(x) => x,
            _ => return Err(VmError::Deferred),
        };
    }
    proof {
        assert(obj_ok(before[i as int]));
    }
    let taken = heap.replace(i, HeapObj::Char(' '));
    let restored = match taken {
        HeapObj::Array(mut v) => {
            let k = match key {
                Value::Int(k) => k,
                _ => 0,
            };
            array_store(&mut v, k as usize, val);
            HeapObj::Array(v)
        },
        HeapObj::Object(mut fs) => {
            match key_str {
                Some(ks) => store_field(&mut fs, &ks, val),
                None => {},
            }
            HeapObj::Object(fs)
        },
        HeapObj::Buffer(mut b) => {
            let k = match key {
                Value::Int(k) => k,
                _ => 0,
            };
            let x = match val {
                Value::Int(x) => x,
                _ => 0,
            };
            b.set(k as usize, x as u8);
            HeapObj::Buffer(b)
        },
        other => other,
    };
    heap.replace(i, restored);
    Ok(())
}


/// `obj[key]` where the compiler expects an array: the element of an array
/// or a tuple, and otherwise what [`get_index`] reads.
pub fn array_get_index(obj: Value, key: Value, heap: &mut Heap) -> (r: Result<Value, VmError>)
    requires
        old(heap).wf(),
    ensures
        final(heap).wf(),
        read_done(old(heap)@, final(heap)@, obj, key, r),
{
    if let Value::Obj(i) = obj {
        if let Value::Int(k) = key {
            match heap.get(i) {
                Some(HeapObj::Array(a)) | Some(HeapObj::Tuple(a)) => {
                    return Ok(elem_at(a, k));
                },
                _ => {},
            }
        }
    }
    get_index(obj, key, heap)
}

/// What `obj[key] = val` does where the compiler expects an array: a tuple
/// refuses the write, anything else is written as [`set_index`] writes it.
pub open spec fn array_index_write(h: Seq<HeapObj>, obj: Value, key: Value, val: Value) -> IndexWrite {
    match obj {
        Value::Obj(i) if i < h.len() && h[i as int] is Tuple => IndexWrite::Fail(
            VmError::Runtime(RuntimeError::CannotMutateTuple),
        ),
        _ => index_write(h, obj, key, val),
    }
}

/// `obj[key] = val` where the compiler expects an array.
pub fn array_set_index(obj: Value, key: Value, val: Value, heap: &mut Heap) -> (r: Result<(), VmError>)
    requires
        old(heap).wf(),
        obj matches Value::Obj(i) && i < old(heap)@.len() && old(heap)@[i as int] is Array
            ==> (key matches Value::Int(k) ==> 0 <= k < usize::MAX),
    ensures
        final(heap).wf(),
        write_done(old(heap)@, final(heap)@, array_index_write(old(heap)@, obj, key, val), r),
{
    if let Value::Obj(i) = obj {
        if let Some(HeapObj::Tuple(_)) = heap.get(i) {
            return Err(VmError::Runtime(RuntimeError::CannotMutateTuple));
        }
    }
    set_index(obj, key, val, heap)
}

/// The length of an array or string as a 32-bit integer.
pub open spec fn length_of(h: Seq<HeapObj>, val: Value) -> Result<Value, VmError> {
    match val {
        Value::Obj(i) if i < h.len() => match h[i as int] {
            HeapObj::Array(a) => Ok(Value::Int(a@.len() as i32 as i64)),
            HeapObj::Str(cs) => Ok(Value::Int(cs@.len() as i32 as i64)),
            _ => Err(VmError::Runtime(RuntimeError::NotAnArray { array_op: crate::error::ArrayOp::Length })),
        },
        _ => Err(VmError::Runtime(RuntimeError::NotAnArray { array_op: crate::error::ArrayOp::Length })),
    }
}

/// The length of an array, or the number of characters of a string, as the
/// 32-bit integer the opcode produces.
pub fn array_length(val: Value, heap: &Heap) -> (r: Result<Value, VmError>)
    ensures
        r == length_of(heap@, val),
{
    if let Value::Obj(i) = val {
        match heap.get(i) {
            Some(HeapObj::Array(a)) => {
                return Ok(Value::Int(a.len() as i32 as i64));
            },
            Some(HeapObj::Str(cs)) => {
                return Ok(Value::Int(cs.len() as i32 as i64));
            },
            _ => {},
        }
    }
    Err(VmError::Runtime(RuntimeError::NotAnArray { array_op: crate::error::ArrayOp::Length }))
}

/// Whether `val` refers to an array of heap `h`.
pub open spec fn is_array_ref(h: Seq<HeapObj>, val: Value) -> bool {
    val matches Value::Obj(i) && i < h.len() && h[i as int] is Array
}

/// The elements of the array that `val` refers to.
pub open spec fn array_elems(h: Seq<HeapObj>, val: Value) -> Seq<Value>
    recommends
        is_array_ref(h, val),
{
    match val {
        Value::Obj(i) => match h[i as int] {
            HeapObj::Array(a) => a@,
            _ => seq![],
        },
        _ => seq![],
    }
}

/// The heap `new_h` is `old_h` with array `i` holding `elems`.
pub open spec fn array_updated(old_h: Seq<HeapObj>, new_h: Seq<HeapObj>, i: usize, elems: Seq<Value>) -> bool {
    &&& new_h.len() == old_h.len()
    &&& forall|j: int| 0 <= j < old_h.len() && j != i ==> new_h[j] == old_h[j]
    &&& new_h[i as int] matches HeapObj::Array(a) && a@ == elems
}

/// `arr.push(val)` took heap `old_h` to `new_h` and gave `r`.
pub open spec fn push_done(old_h: Seq<HeapObj>, new_h: Seq<HeapObj>, arr: Value, val: Value, r: Result<(), VmError>) -> bool {
    if is_array_ref(old_h, arr) {
        r is Ok && array_updated(old_h, new_h, arr->Obj_0, array_elems(old_h, arr).push(val))
    } else {
        r == Err::<(), VmError>(VmError::Runtime(RuntimeError::NotAnArray { array_op: crate::error::ArrayOp::Push }))
            && new_h == old_h
    }
}

/// `arr.pop()` took heap `old_h` to `new_h` and gave `r`: the last element,
/// or `null` for an empty array.
pub open spec fn pop_done(old_h: Seq<HeapObj>, new_h: Seq<HeapObj>, arr: Value, r: Result<Value, VmError>) -> bool {
    if is_array_ref(old_h, arr) {
        let a = array_elems(old_h, arr);
        if a.len() > 0 {
            r == Ok::<Value, VmError>(a.last()) && array_updated(old_h, new_h, arr->Obj_0, a.drop_last())
        } else {
            r == Ok::<Value, VmError>(Value::Null) && array_updated(old_h, new_h, arr->Obj_0, a)
        }
    } else {
        r == Err::<Value, VmError>(VmError::Runtime(RuntimeError::NotAnArray { array_op: crate::error::ArrayOp::Pop }))
            && new_h == old_h
    }
}

/// Extending array `dst` by the elements of array `src` took heap `old_h`
/// to `new_h` and gave `r`.
pub open spec fn extend_done(old_h: Seq<HeapObj>, new_h: Seq<HeapObj>, dst: Value, src: Value, r: Result<(), VmError>) -> bool {
    if is_array_ref(old_h, dst) && is_array_ref(old_h, src) {
        r is Ok && array_updated(old_h, new_h, dst->Obj_0, array_elems(old_h, dst) + array_elems(old_h, src))
    } else {
        r == Err::<(), VmError>(VmError::Runtime(RuntimeError::NotArrays)) && new_h == old_h
    }
}

/// Takes array `i` out of the heap, leaving a placeholder.
fn take_array(heap: &mut Heap, i: usize) -> (v: Vec<Value>)
    requires
        old(heap).wf(),
        i < old(heap)@.len(),
        old(heap)@[i as int] is Array,
    ensures
        final(heap).wf(),
        old(heap)@[i as int] matches HeapObj::Array(a) && v@ == a@,
        final(heap)@.len() == old(heap)@.len(),
        forall|j: int| 0 <= j < old(heap)@.len() && j != i ==> final(heap)@[j] == old(heap)@[j],
{
    match heap.replace(i, HeapObj::Char(' ')) {
        HeapObj::Array(v) => v,
        _ => Vec::new(),
    }
}

/// Appends `val` to the array `arr`.
pub fn array_push(arr: Value, val: Value, heap: &mut Heap) -> (r: Result<(), VmError>)
    requires
        old(heap).wf(),
    ensures
        final(heap).wf(),
        push_done(old(heap)@, final(heap)@, arr, val, r),
{
    if let Value::Obj(i) = arr {
        if let Some(HeapObj::Array(_)) = heap.get(i) {
            let mut v = take_array(heap, i);
            v.push(val);
            heap.replace(i, HeapObj::Array(v));
            return Ok(());
        }
    }
    Err(VmError::Runtime(RuntimeError::NotAnArray { array_op: crate::error::ArrayOp::Push }))
}

/// Removes and returns the last element of the array `arr`, `null` when it is empty.
pub fn array_pop(arr: Value, heap: &mut Heap) -> (r: Result<Value, VmError>)
    requires
        old(heap).wf(),
    ensures
        final(heap).wf(),
        pop_done(old(heap)@, final(heap)@, arr, r),
{
    if let Value::Obj(i) = arr {
        if let Some(HeapObj::Array(_)) = heap.get(i) {
            let mut v = take_array(heap, i);
            let last = v.pop();
            heap.replace(i, HeapObj::Array(v));
            return match last {
                Some(x) => Ok(x),
                None => Ok(Value::Null),
            };
        }
    }
    Err(VmError::Runtime(RuntimeError::NotAnArray { array_op: crate::error::ArrayOp::Pop }))
}

/// Appends the elements of array `src` to array `dst`; `src` is read before
/// any is appended, so extending an array by itself doubles it.
pub fn array_extend(dst: Value, src: Value, heap: &mut Heap) -> (r: Result<(), VmError>)
    requires
        old(heap).wf(),
    ensures
        final(heap).wf(),
        extend_done(old(heap)@, final(heap)@, dst, src, r),
{
    let (di, si) = match (dst, src) {
        (Value::Obj(di), Value::Obj(si)) => (di, si),
        _ => return Err(VmError::Runtime(RuntimeError::NotArrays)),
    };
    let items: Vec<Value> = match (heap.get(di), heap.get(si)) {
        (Some(HeapObj::Array(_)), Some(HeapObj::Array(sa))) => {
            let mut items = Vec::new();
            let mut k: usize = 0;
            while k < sa.len()
                invariant
                    k <= sa@.len(),
                    items@ == sa@.take(k as int),
                decreases sa@.len() - k,
            {
                items.push(sa[k]);
                assert(sa@.take(k + 1) =~= sa@.take(k as int).push(sa@[k as int]));
                k = k + 1;
            }
            assert(sa@.take(sa@.len() as int) =~= sa@);
            items
        },
        _ => return Err(VmError::Runtime(RuntimeError::NotArrays)),
    };
    let mut v = take_array(heap, di);
    let ghost start = v@;
    let mut k: usize = 0;
    while k < items.len()
        invariant
            k <= items@.len(),
            v@ == start + items@.take(k as int),
        decreases items@.len() - k,
    {
        v.push(items[k]);
        assert(items@.take(k + 1) =~= items@.take(k as int).push(items@[k as int]));
        k = k + 1;
    }
    assert(items@.take(items@.len() as int) =~= items@);
    heap.replace(di, HeapObj::Array(v));
    Ok(())
}


/// The fields of the object or record that `val` refers to, if it does.
pub open spec fn object_fields(h: Seq<HeapObj>, val: Value) -> Option<Seq<(Seq<char>, Value)>> {
    match val {
        Value::Obj(i) => if i < h.len() {
            match h[i as int] {
                HeapObj::Object(fs) => Some(fields_view(fs@)),
                HeapObj::Record(fs) => Some(fields_view(fs@)),
                _ => None,
            }
        } else {
            None
        },
        _ => None,
    }
}

/// Listing the keys of `obj` took heap `old_h` to `new_h` and gave `r`:
/// each key as a new string, then a new array of them, in field order.
pub open spec fn keys_done(old_h: Seq<HeapObj>, new_h: Seq<HeapObj>, obj: Value, r: Result<Value, VmError>) -> bool {
    match object_fields(old_h, obj) {
        Some(fs) => {
            let l = old_h.len();
            let n = fs.len();
            &&& r == Ok::<Value, VmError>(Value::Obj((l + n) as usize))
            &&& new_h.len() == l + n + 1
            &&& new_h.take(l as int) == old_h
            &&& forall|j: int| 0 <= j < n ==> (#[trigger] new_h[l + j] matches HeapObj::Str(cs) && cs@ == fs[j].0)
            &&& new_h[(l + n) as int] matches HeapObj::Array(a) && a@ == Seq::new(n, |j: int| Value::Obj((l + j) as usize))
        },
        None => match map_of(old_h, obj) {
            Some(es) => {
                &&& r == Ok::<Value, VmError>(Value::Obj(old_h.len() as usize))
                &&& new_h.len() == old_h.len() + 1
                &&& new_h.take(old_h.len() as int) == old_h
                &&& new_h.last() matches HeapObj::Array(a) && a@ == es.map_values(|e: MapEntry| e.key)
            },
            None => r == Err::<Value, VmError>(VmError::Runtime(RuntimeError::NotAnObject { object_op: crate::error::ObjectOp::Keys }))
                && new_h == old_h,
        },
    }
}

/// The keys of an object or a record, as a new array of new strings: the
/// strings are allocated first, in field order, then the array. The keys of
/// a map, as a new array of them in entry order.
pub fn object_keys(obj: Value, heap: &mut Heap) -> (r: Result<Value, VmError>)
    requires
        old(heap).wf(),
    ensures
        final(heap).wf(),
        keys_done(old(heap)@, final(heap)@, obj, r),
{
    let i = match obj {
        Value::Obj(i) => i,
        _ => return Err(VmError::Runtime(RuntimeError::NotAnObject { object_op: crate::error::ObjectOp::Keys })),
    };
    let keys: Vec<Vec<char>> = match heap.get(i) {
        Some(HeapObj::Object(fs)) | Some(HeapObj::Record(fs)) => {
            let ghost fv = fields_view(fs@);
            let mut keys: Vec<Vec<char>> = Vec::new();
            let mut k: usize = 0;
            while k < fs.len()
                invariant
                    k <= fs@.len(),
                    fv == fields_view(fs@),
                    keys@.len() == k,
                    forall|j: int| 0 <= j < k ==> (#[trigger] keys@[j])@ == fv[j].0,
                decreases fs@.len() - k,
            {
                keys.push(copy_chars(&fs[k].key));
                k = k + 1;
            }
            keys
        },
        Some(HeapObj::ValueMap(es)) => {
            let mut ks: Vec<Value> = Vec::new();
            let mut k: usize = 0;
            while k < es.len()
                invariant
                    k <= es@.len(),
                    ks@ == es@.take(k as int).map_values(|e: MapEntry| e.key),
                decreases es@.len() - k,
            {
                ks.push(es[k].key);
                k = k + 1;
                assert(ks@ =~= es@.take(k as int).map_values(|e: MapEntry| e.key));
            }
            assert(es@.take(es@.len() as int) =~= es@);
            let ghost before = heap@;
            let out = heap.allocate(HeapObj::Array(ks));
            assert(heap@.take(before.len() as int) =~= before);
            return Ok(out);
        },
        _ => return Err(VmError::Runtime(RuntimeError::NotAnObject { object_op: crate::error::ObjectOp::Keys })),
    };
    let ghost fs = object_fields(heap@, obj)->0;
    let ghost l = heap@.len();
    let n = keys.len();
    let mut refs: Vec<Value> = Vec::new();
    let mut keys = keys;
    let mut k: usize = 0;
    while k < n
        invariant
            n == fs.len(),
            k <= n,
            heap.wf(),
            heap@.len() == l + k,
            heap@.take(l as int) == old(heap)@,
            l == old(heap)@.len(),
            fs == object_fields(old(heap)@, obj)->0,
            keys@.len() == n - k,
            forall|j: int| 0 <= j < n - k ==> (#[trigger] keys@[j])@ == fs[k + j].0,
            refs@ == Seq::new(k as nat, |j: int| Value::Obj((l + j) as usize)),
            forall|j: int| 0 <= j < k ==> (#[trigger] heap@[l + j] matches HeapObj::Str(cs) && cs@ == fs[j].0),
        decreases n - k,
    {
        let ghost before = heap@;
        let key = keys.remove(0);
        let v = heap.allocate(HeapObj::Str(key));
        refs.push(v);
        assert(heap@.take(l as int) =~= before.take(l as int));
        k = k + 1;
        assert(refs@ =~= Seq::new(k as nat, |j: int| Value::Obj((l + j) as usize)));
    }
    let ghost before = heap@;
    let out = heap.allocate(HeapObj::Array(refs));
    assert(heap@.take(l as int) =~= before.take(l as int));
    Ok(out)
}


/// The entries of the map that `val` refers to, when it does.
pub open spec fn map_of(h: Seq<HeapObj>, val: Value) -> Option<Seq<MapEntry>> {
    match val {
        Value::Obj(i) => if i < h.len() {
            match h[i as int] {
                HeapObj::ValueMap(es) => Some(es@),
                _ => None,
            }
        } else {
            None
        },
        _ => None,
    }
}

/// The entries of `es` whose key's text is not in `ex`, in their order;
/// `None` when a key has no text here.
pub open spec fn map_without(h: Seq<HeapObj>, es: Seq<MapEntry>, ex: Seq<Seq<char>>) -> Option<Seq<MapEntry>>
    decreases es.len(),
{
    if es.len() == 0 {
        Some(seq![])
    } else {
        match (map_without(h, es.drop_last(), ex), crate::arith::value_text(h, es.last().key)) {
            (Some(r), Some(t)) => Some(if ex.contains(t) { r } else { r.push(es.last()) }),
            _ => None,
        }
    }
}

/// Each entry of `es` as its key's text and its value; `None` when a key
/// has no text here.
pub open spec fn map_fields(h: Seq<HeapObj>, es: Seq<MapEntry>) -> Option<Seq<(Seq<char>, Value)>>
    decreases es.len(),
{
    if es.len() == 0 {
        Some(seq![])
    } else {
        match (map_fields(h, es.drop_last()), crate::arith::value_text(h, es.last().key)) {
            (Some(r), Some(t)) => Some(r.push((t, es.last().value))),
            _ => None,
        }
    }
}

/// The entries of `es` whose key's text is not one of `exclude`.
fn map_entries_without(heap: &Heap, es: &Vec<MapEntry>, exclude: &Vec<Vec<char>>) -> (r: Option<Vec<MapEntry>>)
    ensures
        match map_without(heap@, es@, exclude@.map_values(|c: Vec<char>| c@)) {
            Some(kept) => r matches Some(v) && v@ == kept,
            None => r is None,
        },
{
    let ghost exv = exclude@.map_values(|c: Vec<char>| c@);
    let mut kept: Vec<MapEntry> = Vec::new();
    let mut k: usize = 0;
    while k < es.len()
        invariant
            k <= es@.len(),
            exv == exclude@.map_values(|c: Vec<char>| c@),
            map_without(heap@, es@.take(k as int), exv) == Some(kept@),
        decreases es@.len() - k,
    {
        assert(es@.take(k + 1).drop_last() =~= es@.take(k as int));
        assert(es@.take(k + 1).last() == es@[k as int]);
        match crate::arith::text_of(heap, es[k].key) {
            Some(t) => {
                if !key_listed(exclude, &t) {
                    kept.push(es[k]);
                }
            },
            None => {
                proof {
                    lemma_map_without_none(heap@, es@, exv, (k + 1) as nat);
                }
                return None;
            },
        }
        k = k + 1;
    }
    assert(es@.take(es@.len() as int) =~= es@);
    Some(kept)
}

proof fn lemma_map_without_none(h: Seq<HeapObj>, es: Seq<MapEntry>, ex: Seq<Seq<char>>, k: nat)
    requires
        k <= es.len(),
        map_without(h, es.take(k as int), ex) is None,
    ensures
        map_without(h, es, ex) is None,
    decreases es.len() - k,
{
    if k < es.len() {
        assert(es.take(k + 1int).drop_last() =~= es.take(k as int));
        lemma_map_without_none(h, es, ex, k + 1);
    } else {
        assert(es.take(k as int) =~= es);
    }
}

proof fn lemma_map_fields_none(h: Seq<HeapObj>, es: Seq<MapEntry>, k: nat)
    requires
        k <= es.len(),
        map_fields(h, es.take(k as int)) is None,
    ensures
        map_fields(h, es) is None,
    decreases es.len() - k,
{
    if k < es.len() {
        assert(es.take(k + 1int).drop_last() =~= es.take(k as int));
        lemma_map_fields_none(h, es, k + 1);
    } else {
        assert(es.take(k as int) =~= es);
    }
}

/// The entries of `es` as fields keyed by their keys' texts.
fn map_field_list(heap: &Heap, es: &Vec<MapEntry>) -> (r: Option<Vec<Field>>)
    ensures
        match map_fields(heap@, es@) {
            Some(fs) => r matches Some(v) && fields_view(v@) == fs,
            None => r is None,
        },
{
    let mut out: Vec<Field> = Vec::new();
    let mut k: usize = 0;
    while k < es.len()
        invariant
            k <= es@.len(),
            map_fields(heap@, es@.take(k as int)) == Some(fields_view(out@)),
        decreases es@.len() - k,
    {
        assert(es@.take(k + 1).drop_last() =~= es@.take(k as int));
        assert(es@.take(k + 1).last() == es@[k as int]);
        match crate::arith::text_of(heap, es[k].key) {
            Some(t) => {
                let ghost before = fields_view(out@);
                let f = Field { key: t, value: es[k].value };
                out.push(f);
                assert(fields_view(out@) =~= before.push((f.key@, f.value)));
            },
            None => {
                proof {
                    lemma_map_fields_none(heap@, es@, (k + 1) as nat);
                }
                return None;
            },
        }
        k = k + 1;
    }
    assert(es@.take(es@.len() as int) =~= es@);
    Some(out)
}

/// The fields of `fs` whose keys are not in `ex`, in their order.
pub open spec fn without_keys(fs: Seq<(Seq<char>, Value)>, ex: Seq<Seq<char>>) -> Seq<(Seq<char>, Value)>
    decreases fs.len(),
{
    if fs.len() == 0 {
        seq![]
    } else {
        without_keys(fs.drop_last(), ex) + if ex.contains(fs.last().0) { seq![] } else { seq![fs.last()] }
    }
}

/// Whether the object that `val` refers to is a record.
pub open spec fn is_record_ref(h: Seq<HeapObj>, val: Value) -> bool {
    val matches Value::Obj(i) && i < h.len() && h[i as int] is Record
}

/// Whether `key` is one of `ex`.
fn key_listed(ex: &Vec<Vec<char>>, key: &Vec<char>) -> (r: bool)
    ensures
        r == ex@.map_values(|c: Vec<char>| c@).contains(key@),
{
    let ghost exv = ex@.map_values(|c: Vec<char>| c@);
    let mut i: usize = 0;
    while i < ex.len()
        invariant
            i <= ex@.len(),
            exv == ex@.map_values(|c: Vec<char>| c@),
            forall|k: int| 0 <= k < i ==> exv[k] != key@,
        decreases ex@.len() - i,
    {
        if chars_eq(&ex[i], key) {
            assert(exv[i as int] == key@);
            return true;
        }
        i = i + 1;
    }
    false
}

/// The object (or record) `obj` without the fields named in `exclude`, as a
/// new object (or record).
pub fn object_rest(obj: Value, exclude: &Vec<Vec<char>>, heap: &mut Heap) -> (r: Result<Value, VmError>)
    requires
        old(heap).wf(),
    ensures
        final(heap).wf(),
        match object_fields(old(heap)@, obj) {
            Some(fs) => {
                &&& r == Ok::<Value, VmError>(Value::Obj(old(heap)@.len() as usize))
                &&& final(heap)@.len() == old(heap)@.len() + 1
                &&& final(heap)@.take(old(heap)@.len() as int) == old(heap)@
                &&& if is_record_ref(old(heap)@, obj) {
                    final(heap)@.last() matches HeapObj::Record(rs)
                        && fields_view(rs@) == without_keys(fs, exclude@.map_values(|c: Vec<char>| c@))
                } else {
                    final(heap)@.last() matches HeapObj::Object(rs)
                        && fields_view(rs@) == without_keys(fs, exclude@.map_values(|c: Vec<char>| c@))
                }
            },
            None => match map_of(old(heap)@, obj) {
                Some(es) => match map_without(old(heap)@, es, exclude@.map_values(|c: Vec<char>| c@)) {
                    Some(kept) => {
                        &&& r == Ok::<Value, VmError>(Value::Obj(old(heap)@.len() as usize))
                        &&& final(heap)@.len() == old(heap)@.len() + 1
                        &&& final(heap)@.take(old(heap)@.len() as int) == old(heap)@
                        &&& final(heap)@.last() matches HeapObj::ValueMap(m) && m@ == kept
                    },
                    None => r == Err::<Value, VmError>(VmError::Deferred) && final(heap)@ == old(heap)@,
                },
                None => r == Err::<Value, VmError>(VmError::Runtime(RuntimeError::NotAnObject { object_op: crate::error::ObjectOp::Rest }))
                    && final(heap)@ == old(heap)@,
            },
        },
{
    let ghost exv = exclude@.map_values(|c: Vec<char>| c@);
    let i = match obj {
        Value::Obj(i) => i,
        _ => return Err(VmError::Runtime(RuntimeError::NotAnObject { object_op: crate::error::ObjectOp::Rest })),
    };
    let (is_record, kept) = match heap.get(i) {
        Some(HeapObj::Object(fs)) | Some(HeapObj::Record(fs)) => {
            let is_record = match heap.get(i) {
                Some(HeapObj::Record(_)) => true,
                _ => false,
            };
            proof {
                assert(obj_ok(heap@[i as int]));
            }
            let ghost fv = fields_view(fs@);
            let mut kept: Vec<Field> = Vec::new();
            let mut k: usize = 0;
            while k < fs.len()
                invariant
                    k <= fs@.len(),
                    fv == fields_view(fs@),
                    keys_distinct(fv),
                    exv == exclude@.map_values(|c: Vec<char>| c@),
                    fields_view(kept@) == without_keys(fv.take(k as int), exv),
                    forall|j: int| 0 <= j < kept@.len() ==> exists|m: int| 0 <= m < k && #[trigger] fields_view(kept@)[j] == fv[m],
                decreases fs@.len() - k,
            {
                let ghost before = fields_view(kept@);
                assert(fv.take(k + 1).drop_last() =~= fv.take(k as int));
                assert(fv.take(k + 1).last() == fv[k as int]);
                if !key_listed(exclude, &fs[k].key) {
                    let key = copy_chars(&fs[k].key);
                    kept.push(Field { key, value: fs[k].value });
                    assert(fields_view(kept@) =~= before.push(fv[k as int]));
                    assert forall|j: int| 0 <= j < kept@.len() implies exists|m: int| 0 <= m < k + 1 && #[trigger] fields_view(kept@)[j] == fv[m] by {
                        if j < before.len() {
                            assert(fields_view(kept@)[j] == before[j]);
                            let m = choose|m: int| 0 <= m < k && #[trigger] before[j] == fv[m];
                            assert(fields_view(kept@)[j] == fv[m]);
                        } else {
                            assert(fields_view(kept@)[j] == fv[k as int]);
                        }
                    }
                } else {
                    assert(before + seq![] =~= before);
                }
                k = k + 1;
            }
            assert(fv.take(fs@.len() as int) =~= fv);
            proof {
                let kv = fields_view(kept@);
                assert forall|a: int, b: int| 0 <= a < kv.len() && 0 <= b < kv.len() && a != b implies kv[a].0 != kv[b].0 by {
                    lemma_without_keys_increasing(fv, exv, a, b);
                }
            }
            (is_record, kept)
        },
        Some(HeapObj::ValueMap(es)) => {
            return match map_entries_without(heap, es, exclude) {
                Some(kept) => {
                    let ghost before = heap@;
                    let out = heap.allocate(HeapObj::ValueMap(kept));
                    assert(heap@.take(before.len() as int) =~= before);
                    Ok(out)
                },
                None => Err(VmError::Deferred),
            };
        },
        _ => return Err(VmError::Runtime(RuntimeError::NotAnObject { object_op: crate::error::ObjectOp::Rest })),
    };
    let ghost before = heap@;
    let out = if is_record {
        heap.allocate(HeapObj::Record(kept))
    } else {
        heap.allocate(HeapObj::Object(kept))
    };
    assert(heap@.take(before.len() as int) =~= before);
    Ok(out)
}

/// Two different positions of `without_keys(fs, ex)` come from two different
/// positions of `fs`, so distinct keys stay distinct.
proof fn lemma_without_keys_increasing(fs: Seq<(Seq<char>, Value)>, ex: Seq<Seq<char>>, a: int, b: int)
    requires
        keys_distinct(fs),
        0 <= a < without_keys(fs, ex).len(),
        0 <= b < without_keys(fs, ex).len(),
        a != b,
    ensures
        without_keys(fs, ex)[a].0 != without_keys(fs, ex)[b].0,
    decreases fs.len(),
{
    let w = without_keys(fs, ex);
    let p = fs.drop_last();
    let wp = without_keys(p, ex);
    lemma_without_keys_from(p, ex);
    assert(keys_distinct(p)) by {
        assert forall|x: int, y: int| 0 <= x < p.len() && 0 <= y < p.len() && x != y implies p[x].0 != p[y].0 by {
            assert(p[x] == fs[x] && p[y] == fs[y]);
        }
    }
    if a < wp.len() && b < wp.len() {
        assert(w[a] == wp[a] && w[b] == wp[b]);
        lemma_without_keys_increasing(p, ex, a, b);
    } else {
        let x = if a < wp.len() { a } else { b };
        assert(w[x] == wp[x]);
        let m = choose|m: int| 0 <= m < p.len() && wp[x] == p[m];
        assert(fs[m] == p[m]);
        assert(fs[m].0 != fs[fs.len() - 1].0);
    }
}

/// Every field of `without_keys(fs, ex)` is a field of `fs`.
proof fn lemma_without_keys_from(fs: Seq<(Seq<char>, Value)>, ex: Seq<Seq<char>>)
    ensures
        forall|j: int| 0 <= j < without_keys(fs, ex).len() ==> exists|m: int| 0 <= m < fs.len() && #[trigger] without_keys(fs, ex)[j] == fs[m],
    decreases fs.len(),
{
    if fs.len() > 0 {
        let p = fs.drop_last();
        lemma_without_keys_from(p, ex);
        let w = without_keys(fs, ex);
        let wp = without_keys(p, ex);
        assert forall|j: int| 0 <= j < w.len() implies exists|m: int| 0 <= m < fs.len() && #[trigger] w[j] == fs[m] by {
            if j < wp.len() {
                assert(w[j] == wp[j]);
                let m = choose|m: int| 0 <= m < p.len() && #[trigger] wp[j] == p[m];
                assert(w[j] == fs[m]);
            } else {
                assert(w[j] == fs[fs.len() - 1]);
            }
        }
    }
}


/// `t` with every field of `s` set in turn.
pub open spec fn merge_fields(t: Seq<(Seq<char>, Value)>, s: Seq<(Seq<char>, Value)>) -> Seq<(Seq<char>, Value)>
    decreases s.len(),
{
    if s.len() == 0 {
        t
    } else {
        crate::heap::set_field(merge_fields(t, s.drop_last()), s.last().0, s.last().1)
    }
}

/// Whether `val` refers to an object (not a record) of heap `h`.
pub open spec fn is_object_ref(h: Seq<HeapObj>, val: Value) -> bool {
    val matches Value::Obj(i) && i < h.len() && h[i as int] is Object
}

/// The fields that spreading `val` gives: those of an object, or of a
/// class instance, in order.
pub open spec fn spread_fields(h: Seq<HeapObj>, val: Value) -> Option<Seq<(Seq<char>, Value)>> {
    match val {
        Value::Obj(i) => if i < h.len() {
            match h[i as int] {
                HeapObj::Object(fs) => Some(fields_view(fs@)),
                HeapObj::Instance(d) => Some(fields_view(d.fields@)),
                HeapObj::ValueMap(es) => map_fields(h, es@),
                _ => None,
            }
        } else {
            None
        },
        _ => None,
    }
}

/// Whether spreading `spread` into object `target` is left to the caller:
/// `spread` is a map with a key whose text is not known here.
pub open spec fn merge_deferred(h: Seq<HeapObj>, target: Value, spread: Value) -> bool {
    is_object_ref(h, target) && map_of(h, spread) is Some && map_fields(h, map_of(h, spread)->0) is None
}

/// Spreading object or instance `spread` into object `target` took heap
/// `old_h` to `new_h`; any other pair leaves the heap as it was.
pub open spec fn merge_done(old_h: Seq<HeapObj>, new_h: Seq<HeapObj>, target: Value, spread: Value) -> bool {
    if is_object_ref(old_h, target) && spread_fields(old_h, spread) is Some {
        let ti = target->Obj_0;
        &&& new_h.len() == old_h.len()
        &&& forall|j: int| 0 <= j < old_h.len() && j != ti ==> new_h[j] == old_h[j]
        &&& new_h[ti as int] matches HeapObj::Object(fs) && fields_view(fs@) == merge_fields(
            object_fields(old_h, target)->0,
            spread_fields(old_h, spread)->0,
        )
    } else {
        new_h == old_h
    }
}

/// Spreads `spread` into the object `target` and returns `target`: every
/// field of an object or class instance `spread`, and every entry of a map
/// keyed by its key's text, is set on `target`, in order. A `target` that is
/// not an object, or any other `spread`, leaves the heap alone.
pub fn object_merge(target: Value, spread: Value, heap: &mut Heap) -> (r: Result<Value, VmError>)
    requires
        old(heap).wf(),
    ensures
        final(heap).wf(),
        r == if merge_deferred(old(heap)@, target, spread) {
            Err::<Value, VmError>(VmError::Deferred)
        } else {
            Ok::<Value, VmError>(target)
        },
        merge_done(old(heap)@, final(heap)@, target, spread),
{
    let (ti, si) = match (target, spread) {
        (Value::Obj(ti), Value::Obj(si)) => (ti, si),
        _ => return Ok(target),
    };
    let mapped: Option<Vec<Field>> = match (heap.get(ti), heap.get(si)) {
        (Some(HeapObj::Object(_)), Some(HeapObj::ValueMap(es))) => match map_field_list(heap, es) {
            Some(fs) => Some(fs),
            None => return Err(VmError::Deferred),
        },
        _ => None,
    };
    let src: &Vec<Field> = match &mapped {
        Some(fs) => fs,
        None => match (heap.get(ti), heap.get(si)) {
            (Some(HeapObj::Object(_)), Some(HeapObj::Object(sfs))) => sfs,
            (Some(HeapObj::Object(_)), Some(HeapObj::Instance(d))) => &d.fields,
            _ => return Ok(target),
        },
    };
    let pairs: Vec<Field> = {
        let sfs = src;
        {
            let mut pairs: Vec<Field> = Vec::new();
            let mut k: usize = 0;
            while k < sfs.len()
                invariant
                    k <= sfs@.len(),
                    fields_view(pairs@) == fields_view(sfs@).take(k as int),
                decreases sfs@.len() - k,
            {
                let ghost before = fields_view(pairs@);
                let key = copy_chars(&sfs[k].key);
                pairs.push(Field { key, value: sfs[k].value });
                assert(fields_view(pairs@) =~= before.push((sfs@[k as int].key@, sfs@[k as int].value)));
                assert(fields_view(sfs@).take(k + 1) =~= fields_view(sfs@).take(k as int).push(fields_view(sfs@)[k as int]));
                assert(fields_view(pairs@) =~= fields_view(sfs@).take(k + 1));
                k = k + 1;
            }
            assert(fields_view(sfs@).take(sfs@.len() as int) =~= fields_view(sfs@));
            pairs
        }
    };
    proof {
        assert(obj_ok(heap@[ti as int]));
    }
    let ghost t0 = object_fields(heap@, target)->0;
    let ghost sv = fields_view(pairs@);
    let mut fs = match heap.replace(ti, HeapObj::Char(' ')) {
        HeapObj::Object(fs) => fs,
        _ => Vec::new(),
    };
    let mut k: usize = 0;
    while k < pairs.len()
        invariant
            k <= pairs@.len(),
            sv == fields_view(pairs@),
            keys_distinct(fields_view(fs@)),
            fields_view(fs@) == merge_fields(t0, sv.take(k as int)),
        decreases pairs@.len() - k,
    {
        assert(sv.take(k + 1).drop_last() =~= sv.take(k as int));
        store_field(&mut fs, &pairs[k].key, pairs[k].value);
        k = k + 1;
    }
    assert(sv.take(pairs@.len() as int) =~= sv);
    heap.replace(ti, HeapObj::Object(fs));
    Ok(target)
}

/// Setting field `k` to `v` then reading `k` gives `v`; reading any other
/// field gives what it gave before.
pub proof fn lemma_set_field_reads_back(fs: Seq<(Seq<char>, Value)>, k: Seq<char>, v: Value, other: Seq<char>)
    requires
        keys_distinct(fs),
    ensures
        field_value(crate::heap::set_field(fs, k, v), k) == v,
        other != k ==> field_value(crate::heap::set_field(fs, k, v), other) == field_value(fs, other),
{
    let r = crate::heap::set_field(fs, k, v);
    lemma_set_field_distinct(fs, k, v);
    match key_index(fs, k) {
        Some(i) => {
            assert(r[i].0 == k);
            let c = choose|j: int| 0 <= j < r.len() && r[j].0 == k;
            assert(c == i) by {
                if c != i {
                    assert(r[c].0 != r[i].0);
                }
            }
        },
        None => {
            assert(r[fs.len() as int].0 == k);
            let c = choose|j: int| 0 <= j < r.len() && r[j].0 == k;
            assert(c == fs.len()) by {
                if c != fs.len() {
                    assert(fs[c].0 == k);
                }
            }
        },
    }
    if other != k {
        match key_index(fs, other) {
            Some(i) => {
                assert(r[i].0 == other);
                let c = choose|j: int| 0 <= j < r.len() && r[j].0 == other;
                assert(c == i) by {
                    if c != i {
                        assert(r[c].0 != r[i].0);
                    }
                }
            },
            None => {
                assert forall|j: int| 0 <= j < r.len() implies r[j].0 != other by {
                    if j < fs.len() {
                        match key_index(fs, k) {
                            Some(ik) => {
                                if j != ik {
                                    assert(r[j] == fs[j]);
                                }
                            },
                            None => {
                                assert(r[j] == fs[j]);
                            },
                        }
                    }
                }
            },
        }
    }
}

/// A field written into an object reads back: after `obj[key] = val` with
/// a string key, `obj[key]` gives `val`.
pub proof fn lemma_object_write_reads_back(
    h: Seq<HeapObj>,
    new_h: Seq<HeapObj>,
    i: usize,
    key: Value,
    val: Value,
    r: Result<(), VmError>,
)
    requires
        i < h.len(),
        h[i as int] is Object,
        obj_ok(h[i as int]),
        string_key(h, key) is Some,
        write_done(h, new_h, index_write(h, Value::Obj(i), key, val), r),
    ensures
        r is Ok,
        index_read(new_h, Value::Obj(i), key) == IndexRead::Elem(val),
{
    let k = string_key(h, key)->0;
    if let Value::Obj(j) = key {
        assert(j != i);
        assert(new_h[j as int] == h[j as int]);
    }
    assert(string_key(new_h, key) == Some(k));
    if let HeapObj::Object(fs) = h[i as int] {
        lemma_set_field_reads_back(fields_view(fs@), k, val, k);
    }
}

/// The number of elements of the array that object `i` of `h` is.
pub open spec fn array_len_at(h: Seq<HeapObj>, i: usize) -> int {
    match h[i as int] {
        HeapObj::Array(a) => a@.len() as int,
        _ => 0,
    }
}

/// An element written into an array reads back: after `arr[k] = val` with
/// `k >= 0`, `arr[k]` gives `val`; the array is as long as before, or
/// reaches just past `k`, the indices between its old end and `k` reading
/// `null`; every other index it had gives what it gave before.
pub proof fn lemma_array_write_reads_back(
    h: Seq<HeapObj>,
    new_h: Seq<HeapObj>,
    i: usize,
    k: i64,
    other: i64,
    val: Value,
    r: Result<(), VmError>,
)
    requires
        i < h.len(),
        h[i as int] is Array,
        k >= 0,
        write_done(h, new_h, index_write(h, Value::Obj(i), Value::Int(k), val), r),
    ensures
        r is Ok,
        index_read(new_h, Value::Obj(i), Value::Int(k)) == IndexRead::Elem(val),
        array_len_at(new_h, i) == if k < array_len_at(h, i) { array_len_at(h, i) } else { k + 1 },
        array_len_at(h, i) <= other < k ==> index_read(new_h, Value::Obj(i), Value::Int(other)) == IndexRead::Elem(Value::Null),
        other != k && 0 <= other < array_len_at(h, i)
            ==> index_read(new_h, Value::Obj(i), Value::Int(other)) == index_read(h, Value::Obj(i), Value::Int(other)),
{
    if let HeapObj::Array(a) = h[i as int] {
        let w = array_write(a@, k as int, val);
        assert(w.len() > k);
        assert(w[k as int] == val);
        if other != k && 0 <= other < a@.len() {
            assert(w[other as int] == a@[other as int]);
        }
        if a@.len() <= other < k {
            assert(w[other as int] == Value::Null);
        }
    }
}

/// `k` steps of `d` stay within `x` exactly when `k` is at most `x / d`.
proof fn lemma_floor_bound(x: int, d: int, k: int)
    by (nonlinear_arith)
    requires
        x >= 0,
        d > 0,
        k >= 0,
    ensures
        (k <= x / d) == (k * d <= x),
{
}

/// Whether `start + k·step` is an element of range `r`: `k` counts from
/// zero and the number has not passed the end (it may reach it when the
/// range is inclusive, not when it is exclusive).
pub open spec fn in_range(r: RangeData, k: int) -> bool {
    let x = r.start + k * r.step;
    &&& k >= 0
    &&& if r.step > 0 {
        if r.inclusive { x <= r.end } else { x < r.end }
    } else {
        if r.inclusive { x >= r.end } else { x > r.end }
    }
}

/// The elements of a range whose step points from its start toward its
/// end (for a downward step, an inclusive range): index `k` gives
/// `start + k·step` exactly when that number has not passed the end, and
/// `null` otherwise.
pub proof fn lemma_range_elements(h: Seq<HeapObj>, i: usize, r: RangeData, k: i64)
    requires
        i < h.len(),
        h[i as int] == HeapObj::Range(r),
        range_ok(r),
        (r.step > 0 && r.start <= r.end) || (r.step < 0 && r.start >= r.end && r.inclusive),
    ensures
        in_range(r, k as int) ==> i64::MIN <= r.start + k * r.step <= i64::MAX
            && index_read(h, Value::Obj(i), Value::Int(k)) == IndexRead::Elem(Value::Int((r.start + k * r.step) as i64)),
        !in_range(r, k as int) ==> index_read(h, Value::Obj(i), Value::Int(k)) == IndexRead::Elem(Value::Null),
{
    let diff = r.end - r.start;
    let kk = k as int;
    if r.step > 0 {
        if r.inclusive {
            assert(trunc_div(diff, r.step as int) == diff / (r.step as int));
            if kk >= 0 {
                lemma_floor_bound(diff, r.step as int, kk);
                assert((kk * r.step <= diff) == (r.start + kk * r.step <= r.end));
            }
        } else {
            let num = diff + r.step - 1;
            assert(trunc_div(num, r.step as int) == num / (r.step as int));
            if kk >= 0 {
                lemma_floor_bound(num, r.step as int, kk + 1);
                assert((kk + 1) * r.step == kk * r.step + r.step) by (nonlinear_arith);
                assert(((kk + 1) * r.step <= num) == (r.start + kk * r.step < r.end));
            }
        }
    } else {
        let nd = -diff;
        let ns = -r.step;
        assert(abs(diff) == nd && abs(r.step as int) == ns);
        assert(trunc_div(diff, r.step as int) == nd / ns);
        if kk >= 0 {
            lemma_floor_bound(nd, ns, kk);
            assert(kk * ns == -(kk * r.step)) by (nonlinear_arith)
                requires ns == -r.step;
        }
    }
    if in_range(r, kk) {
        if r.step > 0 {
            assert(kk * r.step >= 0) by (nonlinear_arith)
                requires kk >= 0, r.step > 0;
        } else {
            assert(kk * r.step <= 0) by (nonlinear_arith)
                requires kk >= 0, r.step < 0;
        }
    }
}

/// An inclusive upward range contains its end when its step divides the
/// distance from start to end: the index of that many steps gives the end.
pub proof fn lemma_range_contains_end(h: Seq<HeapObj>, i: usize, r: RangeData)
    requires
        i < h.len(),
        h[i as int] == HeapObj::Range(r),
        range_ok(r),
        r.inclusive,
        r.step > 0,
        r.start <= r.end,
        (r.end - r.start) % (r.step as int) == 0,
    ensures
        index_read(h, Value::Obj(i), Value::Int(((r.end - r.start) / (r.step as int)) as i64)) == IndexRead::Elem(Value::Int(r.end)),
{
    let diff = r.end - r.start;
    let q = diff / (r.step as int);
    assert(q * r.step == diff && 0 <= q <= diff) by (nonlinear_arith)
        requires diff >= 0, r.step > 0, diff % (r.step as int) == 0, q == diff / (r.step as int);
    assert(range_bound() == 0x1000_0000_0000_0000);
    lemma_range_elements(h, i, r, q as i64);
}

/// An inclusive range has its end as one element more than the exclusive
/// range with the same bounds: when the step is positive and divides the
/// span, the two ranges read alike at every index but `(end - start) /
/// step`, where the inclusive one gives `end` and the exclusive one `null`.
pub proof fn lemma_inclusive_adds_end(h: Seq<HeapObj>, i: usize, j: usize, r: RangeData, k: i64)
    requires
        i < h.len(),
        j < h.len(),
        h[i as int] == HeapObj::Range(r),
        h[j as int] == HeapObj::Range(RangeData { inclusive: false, ..r }),
        range_ok(r),
        r.inclusive,
        r.step > 0,
        r.start <= r.end,
        (r.end - r.start) % (r.step as int) == 0,
    ensures
        k as int != (r.end - r.start) / (r.step as int) ==> index_read(h, Value::Obj(i), Value::Int(k))
            == index_read(h, Value::Obj(j), Value::Int(k)),
        k as int == (r.end - r.start) / (r.step as int) ==> {
            &&& index_read(h, Value::Obj(i), Value::Int(k)) == IndexRead::Elem(Value::Int(r.end))
            &&& index_read(h, Value::Obj(j), Value::Int(k)) == IndexRead::Elem(Value::Null)
        },
{
    let x = RangeData { inclusive: false, ..r };
    let diff = r.end - r.start;
    let q = diff / (r.step as int);
    let kk = k as int;
    assert(q * r.step == diff) by (nonlinear_arith)
        requires diff >= 0, r.step > 0, diff % (r.step as int) == 0, q == diff / (r.step as int);
    lemma_range_elements(h, i, r, k);
    lemma_range_elements(h, j, x, k);
    if kk != q {
        assert(kk * r.step != q * r.step) by (nonlinear_arith)
            requires kk != q, r.step > 0;
        assert(in_range(r, kk) == in_range(x, kk));
    } else {
        assert(in_range(r, kk) && !in_range(x, kk));
        assert(r.start + kk * r.step == r.end);
    }
}

/// Reading by index: an array or a tuple gives its element at an index it
/// has and `null` anywhere else (a negative index included); a string gives
/// a new one-character string of its character at an index it has.
pub proof fn lemma_index_reads(h: Seq<HeapObj>, i: usize, k: i64)
    requires
        i < h.len(),
    ensures
        h[i as int] matches HeapObj::Array(a) ==> index_read(h, Value::Obj(i), Value::Int(k))
            == IndexRead::Elem(if 0 <= k < a@.len() { a@[k as int] } else { Value::Null }),
        h[i as int] matches HeapObj::Tuple(a) ==> index_read(h, Value::Obj(i), Value::Int(k))
            == IndexRead::Elem(if 0 <= k < a@.len() { a@[k as int] } else { Value::Null }),
        h[i as int] matches HeapObj::Str(cs) ==> index_read(h, Value::Obj(i), Value::Int(k))
            == if 0 <= k < cs@.len() { IndexRead::NewChar(cs@[k as int]) } else { IndexRead::Elem(Value::Null) },
{
}

/// Popping what was pushed gives it back and leaves the array as it was.
pub proof fn lemma_pop_undoes_push(h0: Seq<HeapObj>, h1: Seq<HeapObj>, h2: Seq<HeapObj>, arr: Value, v: Value, w: Value)
    requires
        is_array_ref(h0, arr),
        push_done(h0, h1, arr, v, Ok(())),
        pop_done(h1, h2, arr, Ok(w)),
    ensures
        w == v,
        is_array_ref(h2, arr),
        array_elems(h2, arr) == array_elems(h0, arr),
        h2.len() == h0.len(),
        forall|j: int| 0 <= j < h0.len() && j != arr->Obj_0 ==> h2[j] == h0[j],
{
    let e0 = array_elems(h0, arr);
    assert(array_elems(h1, arr) == e0.push(v));
    assert(e0.push(v).drop_last() =~= e0);
}

/// A field added at the end of fields that name each key once reads back,
/// and the others read as before.
proof fn lemma_field_value_push(a: Seq<(Seq<char>, Value)>, p: (Seq<char>, Value), k: Seq<char>)
    requires
        keys_distinct(a.push(p)),
    ensures
        field_value(a.push(p), k) == if p.0 == k { p.1 } else { field_value(a, k) },
{
    let b = a.push(p);
    if p.0 == k {
        assert(b[a.len() as int].0 == k);
        let c = key_index(b, k)->0;
        if c != a.len() {
            assert(b[c].0 != b[a.len() as int].0);
        }
    } else {
        if key_index(a, k) is Some {
            let j = key_index(a, k)->0;
            assert(b[j].0 == k);
            let c = key_index(b, k)->0;
            if c != j {
                assert(b[c].0 != b[j].0);
            }
        } else {
            if key_index(b, k) is Some {
                let c = key_index(b, k)->0;
                assert(c < a.len());
                assert(a[c].0 == k);
            }
        }
    }
}

/// The fields left by a rest pattern are those not excluded, with their
/// values: an excluded key reads `null`, any other key reads as in the
/// object.
pub proof fn lemma_rest_fields(fs: Seq<(Seq<char>, Value)>, ex: Seq<Seq<char>>, k: Seq<char>)
    requires
        keys_distinct(fs),
    ensures
        field_value(without_keys(fs, ex), k) == if ex.contains(k) { Value::Null } else { field_value(fs, k) },
    decreases fs.len(),
{
    let w = without_keys(fs, ex);
    assert(keys_distinct(w)) by {
        assert forall|a: int, b: int| 0 <= a < w.len() && 0 <= b < w.len() && a != b implies w[a].0 != w[b].0 by {
            lemma_without_keys_increasing(fs, ex, a, b);
        }
    }
    if fs.len() == 0 {
        assert(w.len() == 0);
    } else {
        let t = fs.drop_last();
        let p = fs.last();
        assert(keys_distinct(t)) by {
            assert forall|a: int, b: int| 0 <= a < t.len() && 0 <= b < t.len() && a != b implies t[a].0 != t[b].0 by {
                assert(t[a] == fs[a] && t[b] == fs[b]);
            }
        }
        lemma_rest_fields(t, ex, k);
        assert(fs =~= t.push(p));
        lemma_field_value_push(t, p, k);
        let wt = without_keys(t, ex);
        if ex.contains(p.0) {
            assert(w =~= wt);
        } else {
            assert(w =~= wt.push(p));
            lemma_field_value_push(wt, p, k);
        }
    }
}

/// Spreading fields `s` (each key once) into fields `t`: a key of `s`
/// reads its value from `s`, any other key reads as in `t`.
pub proof fn lemma_merge_fields(t: Seq<(Seq<char>, Value)>, s: Seq<(Seq<char>, Value)>, k: Seq<char>)
    requires
        keys_distinct(t),
        keys_distinct(s),
    ensures
        keys_distinct(merge_fields(t, s)),
        field_value(merge_fields(t, s), k) == match key_index(s, k) {
            Some(j) => s[j].1,
            None => field_value(t, k),
        },
    decreases s.len(),
{
    if s.len() > 0 {
        let sd = s.drop_last();
        let p = s.last();
        assert(keys_distinct(sd)) by {
            assert forall|a: int, b: int| 0 <= a < sd.len() && 0 <= b < sd.len() && a != b implies sd[a].0 != sd[b].0 by {
                assert(sd[a] == s[a] && sd[b] == s[b]);
            }
        }
        lemma_merge_fields(t, sd, k);
        let m = merge_fields(t, sd);
        lemma_set_field_distinct(m, p.0, p.1);
        lemma_set_field_reads_back(m, p.0, p.1, k);
        if k == p.0 {
            assert(s[s.len() - 1].0 == k);
            let c = key_index(s, k)->0;
            if c != s.len() - 1 {
                assert(s[c].0 != s[s.len() - 1].0);
            }
        } else {
            match key_index(sd, k) {
                Some(j) => {
                    assert(s[j].0 == k);
                    let c = key_index(s, k)->0;
                    if c != j {
                        assert(s[c].0 != s[j].0);
                    }
                },
                None => {
                    if key_index(s, k) is Some {
                        let c = key_index(s, k)->0;
                        assert(c < sd.len());
                        assert(sd[c].0 == k);
                    }
                },
            }
        }
    }
}

} // verus!
