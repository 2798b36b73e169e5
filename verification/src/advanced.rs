//! Type tests and membership: `is_array`, the null assertion, `typeof`,
//! `instanceof`, the enum tag read and the `in` operator.
use vstd::prelude::*;
use crate::value::Value;
use crate::heap::{Heap, HeapObj, fields_view, key_index};
use crate::error::{RuntimeError, VmError};
use crate::json::{int_text, digits, digit_char, write_int};
use crate::collections::find_field;

verus! {

/// Whether `val` refers to an array of heap `h`.
pub open spec fn array_ref(h: Seq<HeapObj>, val: Value) -> bool {
    match val {
        Value::Obj(i) => i < h.len() && h[i as int] is Array,
        _ => false,
    }
}

/// Whether `val` is an array.
pub fn is_array(val: Value, heap: &Heap) -> (r: bool)
    ensures
        r == array_ref(heap@, val),
{
    match val {
        Value::Obj(i) => match heap.get(i) {
            Some(HeapObj::Array(_)) => true,
            _ => false,
        },
        _ => false,
    }
}

/// Fails on `null`, passes every other value.
pub fn assert_not_null(val: Value) -> (r: Result<(), RuntimeError>)
    ensures
        val is Null ==> r == Err::<(), RuntimeError>(RuntimeError::NullAssertion),
        !(val is Null) ==> r is Ok,
{
    if val.is_null() {
        Err(RuntimeError::NullAssertion)
    } else {
        Ok(())
    }
}

/// The kinds of value that `typeof` tells apart.
#[derive(Clone, Copy, PartialEq, Eq, Structural, Debug)]
pub enum RuntimeKind {
    Null,
    Bool,
    Int,
    Float,
    Str,
    Char,
    Array,
    Tuple,
    Object,
    Record,
    Range,
    Buffer,
    Enum,
    BigInt,
    Decimal,
    Class,
    Function,
    Instance,
    MapKind,
}

/// The kind of a heap object.
pub open spec fn obj_kind(o: HeapObj) -> RuntimeKind {
    match o {
        HeapObj::Str(_) => RuntimeKind::Str,
        HeapObj::Char(_) => RuntimeKind::Char,
        HeapObj::Array(_) => RuntimeKind::Array,
        HeapObj::Tuple(_) => RuntimeKind::Tuple,
        HeapObj::Object(_) => RuntimeKind::Object,
        HeapObj::Record(_) => RuntimeKind::Record,
        HeapObj::Range(_) => RuntimeKind::Range,
        HeapObj::Buffer(_) => RuntimeKind::Buffer,
        HeapObj::EnumVariant(_) => RuntimeKind::Enum,
        HeapObj::BigInt(_) => RuntimeKind::BigInt,
        HeapObj::Decimal(_) => RuntimeKind::Decimal,
        HeapObj::Class(_) => RuntimeKind::Class,
        HeapObj::BoundMethod(_) => RuntimeKind::Function,
        HeapObj::Closure(_) => RuntimeKind::Function,
        HeapObj::NativeFn(_) => RuntimeKind::Function,
        HeapObj::Instance(_) => RuntimeKind::Instance,
        HeapObj::ValueMap(_) => RuntimeKind::MapKind,
    }
}

/// The kind of `val`: scalars by their variant, a reference by the object
/// it names, a reference past the heap's end as an object.
pub open spec fn kind_of(h: Seq<HeapObj>, val: Value) -> RuntimeKind {
    match val {
        Value::Null => RuntimeKind::Null,
        Value::Bool(_) => RuntimeKind::Bool,
        Value::Int(_) => RuntimeKind::Int,
        Value::Float(_) => RuntimeKind::Float,
        Value::Obj(i) => if i < h.len() { obj_kind(h[i as int]) } else { RuntimeKind::Object },
    }
}

/// `typeof val`.
pub fn typeof_val(val: Value, heap: &Heap) -> (k: RuntimeKind)
    ensures
        k == kind_of(heap@, val),
{
    match val {
        Value::Null => RuntimeKind::Null,
        Value::Bool(_) => RuntimeKind::Bool,
        Value::Int(_) => RuntimeKind::Int,
        Value::Float(_) => RuntimeKind::Float,
        Value::Obj(i) => match heap.get(i) {
            Some(HeapObj::Str(_)) => RuntimeKind::Str,
            Some(HeapObj::Char(_)) => RuntimeKind::Char,
            Some(HeapObj::Array(_)) => RuntimeKind::Array,
            Some(HeapObj::Tuple(_)) => RuntimeKind::Tuple,
            Some(HeapObj::Object(_)) => RuntimeKind::Object,
            Some(HeapObj::Record(_)) => RuntimeKind::Record,
            Some(HeapObj::Range(_)) => RuntimeKind::Range,
            Some(HeapObj::Buffer(_)) => RuntimeKind::Buffer,
            Some(HeapObj::EnumVariant(_)) => RuntimeKind::Enum,
            Some(HeapObj::BigInt(_)) => RuntimeKind::BigInt,
            Some(HeapObj::Decimal(_)) => RuntimeKind::Decimal,
            Some(HeapObj::Class(_)) => RuntimeKind::Class,
            Some(HeapObj::BoundMethod(_)) => RuntimeKind::Function,
            Some(HeapObj::Closure(_)) => RuntimeKind::Function,
            Some(HeapObj::NativeFn(_)) => RuntimeKind::Function,
            Some(HeapObj::Instance(_)) => RuntimeKind::Instance,
            Some(HeapObj::ValueMap(_)) => RuntimeKind::MapKind,
            None => RuntimeKind::Object,
        },
    }
}

/// Whether class `c`, or a class above it within `fuel` steps, is class
/// `target`.
pub open spec fn chain_reaches(h: Seq<HeapObj>, c: usize, target: usize, fuel: nat) -> bool
    decreases fuel,
{
    if fuel == 0 {
        false
    } else if c == target {
        true
    } else if c < h.len() {
        match h[c as int] {
            HeapObj::Class(cd) => match cd.superclass {
                Some(s) => chain_reaches(h, s, target, (fuel - 1) as nat),
                None => false,
            },
            _ => false,
        }
    } else {
        false
    }
}

/// `obj instanceof cls` on heap `h`. A class whose name is that of a
/// built-in kind (`builtin`, which the caller resolves from the name) tests
/// the kind: an `int` is a whole number (a float's wholeness is left to the
/// caller), a `float` any number; any other class tests whether `obj` is an
/// instance of it or of a class below it. Anything that is not a class
/// has no instances.
pub open spec fn instance_of(h: Seq<HeapObj>, obj: Value, cls: Value, builtin: Option<RuntimeKind>) -> Result<bool, VmError> {
    if !(cls matches Value::Obj(ci) && ci < h.len() && h[ci as int] is Class) {
        Ok(false)
    } else {
        match builtin {
            Some(k) => match k {
                RuntimeKind::Int => match obj {
                    Value::Int(_) => Ok(true),
                    Value::Float(_) => Err(VmError::Deferred),
                    _ => Ok(false),
                },
                RuntimeKind::Float => Ok(obj is Int || obj is Float),
                RuntimeKind::Bool => Ok(obj is Bool),
                RuntimeKind::Null => Ok(obj is Null),
                RuntimeKind::Str | RuntimeKind::Char | RuntimeKind::Decimal => Ok(obj is Obj && kind_of(h, obj) == k),
                _ => Ok(false),
            },
            None => match obj {
                Value::Obj(i) => if i < h.len() {
                    match h[i as int] {
                        HeapObj::Instance(d) => Ok(chain_reaches(h, d.class, cls->Obj_0, h.len())),
                        _ => Ok(false),
                    }
                } else {
                    Ok(false)
                },
                _ => Ok(false),
            },
        }
    }
}

/// `obj instanceof cls`, where `builtin` is the built-in kind that the
/// class's name denotes, if any.
pub fn instanceof(obj: Value, cls: Value, builtin: Option<RuntimeKind>, heap: &Heap) -> (r: Result<bool, VmError>)
    ensures
        r == instance_of(heap@, obj, cls, builtin),
{
    let ci = match cls {
        Value::Obj(ci) => match heap.get(ci) {
            Some(HeapObj::Class(_)) => ci,
            _ => return Ok(false),
        },
        _ => return Ok(false),
    };
    if let Some(k) = builtin {
        return match k {
            RuntimeKind::Int => match obj {
                Value::Int(_) => Ok(true),
                Value::Float(_) => Err(VmError::Deferred),
                _ => Ok(false),
            },
            RuntimeKind::Float => Ok(matches!(obj, Value::Int(_) | Value::Float(_))),
            RuntimeKind::Bool => Ok(matches!(obj, Value::Bool(_))),
            RuntimeKind::Null => Ok(matches!(obj, Value::Null)),
            RuntimeKind::Str | RuntimeKind::Char | RuntimeKind::Decimal => {
                Ok(matches!(obj, Value::Obj(_)) && typeof_val(obj, heap) == k)
            },
            _ => Ok(false),
        };
    }
    let start = match obj {
        Value::Obj(i) => match heap.get(i) {
            Some(HeapObj::Instance(d)) => d.class,
            _ => return Ok(false),
        },
        _ => return Ok(false),
    };
    let mut cur = start;
    let mut fuel = heap.len();
    while fuel > 0
        invariant
            fuel <= heap@.len(),
            instance_of(heap@, obj, cls, builtin) == Ok::<bool, VmError>(chain_reaches(heap@, start, ci, heap@.len())),
            chain_reaches(heap@, start, ci, heap@.len()) == chain_reaches(heap@, cur, ci, fuel as nat),
        decreases fuel,
    {
        if cur == ci {
            return Ok(true);
        }
        match heap.get(cur) {
            Some(HeapObj::Class(cd)) => match cd.superclass {
                Some(s) => {
                    cur = s;
                    fuel = fuel - 1;
                },
                None => return Ok(false),
            },
            _ => return Ok(false),
        }
    }
    Ok(false)
}

/// The tag of the enum value that `val` refers to, as a 32-bit integer.
pub open spec fn enum_tag(h: Seq<HeapObj>, val: Value) -> Result<Value, RuntimeError> {
    match val {
        Value::Obj(i) => if i < h.len() {
            match h[i as int] {
                HeapObj::EnumVariant(e) => Ok(Value::Int(e.tag as i32 as i64)),
                _ => Err(RuntimeError::NotEnumVariant),
            }
        } else {
            Err(RuntimeError::NotEnumVariant)
        },
        _ => Err(RuntimeError::NotEnumVariant),
    }
}

/// Reads the tag of an enum value.
pub fn get_enum_tag(val: Value, heap: &Heap) -> (r: Result<Value, RuntimeError>)
    ensures
        r == enum_tag(heap@, val),
{
    match val {
        Value::Obj(i) => match heap.get(i) {
            Some(HeapObj::EnumVariant(e)) => Ok(Value::Int(e.tag as i32 as i64)),
            _ => Err(RuntimeError::NotEnumVariant),
        },
        _ => Err(RuntimeError::NotEnumVariant),
    }
}

/// A decimal digit.
pub open spec fn is_decimal(c: char) -> bool {
    '0' <= c <= '9'
}

/// Every character is a decimal digit.
pub open spec fn all_decimal(s: Seq<char>) -> bool {
    forall|i: int| 0 <= i < s.len() ==> is_decimal(#[trigger] s[i])
}

/// The number that the digits `s` spell.
pub open spec fn decimal_value(s: Seq<char>) -> int
    decreases s.len(),
{
    if s.len() == 0 {
        0
    } else {
        decimal_value(s.drop_last()) * 10 + (s.last() as int - 48)
    }
}

/// `s` without one leading `+`.
pub open spec fn unsigned_body(s: Seq<char>) -> Seq<char> {
    if s.len() > 0 && s[0] == '+' { s.drop_first() } else { s }
}

/// The index that `s` names as an unsigned machine integer: an optional `+`
/// and at least one decimal digit, of a value that fits in `usize`.
pub open spec fn parse_index(s: Seq<char>) -> Option<int> {
    let b = unsigned_body(s);
    if b.len() > 0 && all_decimal(b) && decimal_value(b) <= usize::MAX {
        Some(decimal_value(b))
    } else {
        None
    }
}

proof fn lemma_decimal_prefix(s: Seq<char>, k: int)
    requires
        0 <= k <= s.len(),
        all_decimal(s),
    ensures
        decimal_value(s.take(k)) <= decimal_value(s),
        decimal_value(s.take(k)) >= 0,
    decreases s.len() - k,
{
    if k < s.len() {
        lemma_decimal_prefix(s, k + 1);
        let t = s.take(k + 1);
        assert(t.drop_last() =~= s.take(k));
        assert(is_decimal(s[k]));
        assert(decimal_value(t) == decimal_value(s.take(k)) * 10 + (s[k] as int - 48));
    } else {
        assert(s.take(k) =~= s);
    }
    if k == 0 {
        assert(s.take(0) =~= Seq::<char>::empty());
    } else {
        lemma_decimal_nonneg(s.take(k));
    }
}

proof fn lemma_decimal_nonneg(s: Seq<char>)
    requires
        all_decimal(s),
    ensures
        decimal_value(s) >= 0,
    decreases s.len(),
{
    if s.len() > 0 {
        assert(is_decimal(s[s.len() - 1]));
        lemma_decimal_nonneg(s.drop_last());
    }
}

/// Reads an unsigned index from the characters `s`.
pub fn parse_usize(s: &Vec<char>) -> (r: Option<usize>)
    ensures
        match parse_index(s@) {
            Some(v) => r == Some(v as usize),
            None => r is None,
        },
        r matches Some(x) ==> parse_index(s@) == Some(x as int),
{
    let mut i: usize = 0;
    if s.len() > 0 && s[0] == '+' {
        i = 1;
    }
    let start = i;
    let ghost b = unsigned_body(s@);
    assert(b =~= s@.skip(start as int));
    if i == s.len() {
        return None;
    }
    let mut v: usize = 0;
    while i < s.len()
        invariant
            start <= i <= s@.len(),
            start < s@.len(),
            b == s@.skip(start as int),
            b == unsigned_body(s@),
            all_decimal(s@.subrange(start as int, i as int)),
            v as int == decimal_value(s@.subrange(start as int, i as int)),
        decreases s@.len() - i,
    {
        let c = s[i];
        if !('0' <= c && c <= '9') {
            proof {
                assert(b[i - start] == c);
                assert(!is_decimal(b[i - start]));
            }
            return None;
        }
        let d = (c as u32 - 48) as usize;
        let ghost pre = s@.subrange(start as int, i as int);
        let ghost next = s@.subrange(start as int, i + 1);
        assert(next.drop_last() =~= pre);
        assert(all_decimal(next)) by {
            assert forall|j: int| 0 <= j < next.len() implies is_decimal(#[trigger] next[j]) by {
                if j < pre.len() {
                    assert(next[j] == pre[j]);
                }
            }
        }
        assert(decimal_value(next) == v * 10 + d);
        if v > (usize::MAX - d) / 10 {
            proof {
                assert(v * 10 + d > usize::MAX) by (nonlinear_arith)
                    requires
                        v > (usize::MAX - d) / 10,
                        d <= 9,
                ;
                assert(next =~= b.take(i + 1 - start));
                if all_decimal(b) {
                    lemma_decimal_prefix(b, i + 1 - start);
                }
            }
            return None;
        }
        v = v * 10 + d;
        i = i + 1;
    }
    assert(s@.subrange(start as int, i as int) =~= b);
    proof {
        lemma_decimal_nonneg(b);
    }
    Some(v)
}

/// The decimal digits of `m` read back as `m`.
proof fn lemma_digits_parse(m: nat)
    ensures
        digits(m).len() > 0,
        all_decimal(digits(m)),
        decimal_value(digits(m)) == m,
    decreases m,
{
    let s = digits(m);
    if m < 10 {
        assert(digit_char(m as int) as int == m + 48);
        assert(s =~= seq![digit_char(m as int)]);
        assert(s.drop_last() =~= Seq::<char>::empty());
        assert(s.last() == digit_char(m as int));
        assert(decimal_value(s) == decimal_value(s.drop_last()) * 10 + (s.last() as int - 48));
        assert(decimal_value(Seq::<char>::empty()) == 0);
    } else {
        lemma_digits_parse(m / 10);
        let p = digits(m / 10);
        assert(digit_char((m % 10) as int) as int == (m % 10) + 48);
        assert(s.drop_last() =~= p);
        assert(s.last() == digit_char((m % 10) as int));
        assert(decimal_value(s) == decimal_value(p) * 10 + (m % 10));
        assert(m == (m / 10) * 10 + m % 10);
        assert(all_decimal(s)) by {
            assert forall|j: int| 0 <= j < s.len() implies is_decimal(#[trigger] s[j]) by {
                if j < p.len() {
                    assert(s[j] == p[j]);
                }
            }
        }
    }
}

/// A non-negative integer written in decimal names itself as an index when
/// it fits in `usize`; a negative or larger one names none.
pub proof fn lemma_int_text_index(n: i64)
    ensures
        0 <= n <= usize::MAX ==> parse_index(int_text(n as int)) == Some(n as int),
        n < 0 || n > usize::MAX ==> parse_index(int_text(n as int)) is None,
{
    if n >= 0 {
        lemma_digits_parse(n as nat);
        assert(is_decimal(digits(n as nat)[0]));
        assert(unsigned_body(int_text(n as int)) == digits(n as nat));
    } else {
        let s = int_text(n as int);
        assert(s[0] == '-');
        assert(!is_decimal(unsigned_body(s)[0]));
    }
}

/// The text of a key as the `in` operator reads it: its text as a string
/// joins it (see [`crate::arith::value_text`]); other keys take the
/// conversion outside this library.
pub open spec fn key_text(h: Seq<HeapObj>, key: Value) -> Option<Seq<char>> {
    crate::arith::value_text(h, key)
}

/// What `key in obj` gives: an object has the key as a field name; an
/// array has it as an index below its length; any other value has nothing.
pub open spec fn has_key(h: Seq<HeapObj>, key: Value, obj: Value) -> Result<bool, VmError> {
    match obj {
        Value::Obj(i) => match key_text(h, key) {
            None => Err(VmError::Deferred),
            Some(k) => if i < h.len() {
                match h[i as int] {
                    HeapObj::Object(fs) => Ok(key_index(fields_view(fs@), k) is Some),
                    HeapObj::Array(a) => Ok(match parse_index(k) {
                        Some(idx) => idx < a@.len(),
                        None => false,
                    }),
                    _ => Ok(false),
                }
            } else {
                Ok(false)
            },
        },
        _ => Ok(false),
    }
}

/// The `in` operator.
pub fn op_in(key: Value, obj: Value, heap: &Heap) -> (r: Result<bool, VmError>)
    requires
        heap.wf(),
    ensures
        r == has_key(heap@, key, obj),
{
    let i = match obj {
        Value::Obj(i) => i,
        _ => return Ok(false),
    };
    let key_s: Vec<char> = match crate::arith::text_of(heap, key) {
        Some(t) => t,
        None => return Err(VmError::Deferred),
    };
    match heap.get(i) {
        Some(HeapObj::Object(fs)) => {
            assert(crate::heap::obj_ok(heap@[i as int]));
            let found = find_field(fs, &key_s);
            Ok(found.is_some())
        },
        Some(HeapObj::Array(a)) => match parse_usize(&key_s) {
            Some(idx) => Ok(idx < a.len()),
            None => Ok(false),
        },
        _ => Ok(false),
    }
}

/// An integer key is in an array exactly when it is an index of it.
pub proof fn lemma_int_key_in_array(h: Seq<HeapObj>, n: i64, i: usize)
    requires
        i < h.len(),
        h[i as int] is Array,
    ensures
        has_key(h, Value::Int(n), Value::Obj(i)) == Ok::<bool, VmError>(
            0 <= n && n <= usize::MAX && n < (match h[i as int] { HeapObj::Array(a) => a@.len() as int, _ => 0 }),
        ),
{
    lemma_int_text_index(n);
}

} // verus!
