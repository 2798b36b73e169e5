//! Reading and writing a named property of a value.
//!
//! An object or a record has its fields (a missing one reads `null`); an
//! instance has its own fields and the members of its class and the
//! classes above it; a class has its statics and static accessors, its
//! own first, then those of its superclasses; an array and a string have
//! `length`. A getter or a setter found for the name is called, the
//! receiver being the value whose property it is; a method read from an
//! instance comes back bound to the instance. Every other value reads
//! `null` and takes no writes; `null` takes neither, but an optional read
//! (`a?.b`) of it gives `null`.
use vstd::prelude::*;
use crate::value::Value;
use crate::heap::{Heap, HeapObj, Field, fields_view, key_index, field_value, set_field, obj_ok};
use crate::error::RuntimeError;
use crate::classes::{ClassData, BoundData, MemberTable, table, member_defined, define_member};
use crate::collections::{find_field, store_field};

verus! {

/// Member `name` of table `t`, looked up in class `c` and then up its
/// superclasses, looking at most `fuel` classes: the member and the class
/// that has it.
pub open spec fn chain_find(h: Seq<HeapObj>, c: usize, t: MemberTable, name: Seq<char>, fuel: nat) -> Option<(Value, usize)>
    decreases fuel,
{
    if fuel == 0 || c >= h.len() {
        None
    } else {
        match h[c as int] {
            HeapObj::Class(cd) => match key_index(table(cd, t), name) {
                Some(j) => Some((table(cd, t)[j].1, c)),
                None => match cd.superclass {
                    Some(s) => chain_find(h, s, t, name, (fuel - 1) as nat),
                    None => None,
                },
            },
            _ => None,
        }
    }
}

/// Member `name` of table `t` of class `c` or a class above it; a chain of
/// superclasses longer than the heap is a cycle and ends the search.
pub open spec fn class_member(h: Seq<HeapObj>, c: usize, t: MemberTable, name: Seq<char>) -> Option<(Value, usize)> {
    chain_find(h, c, t, name, h.len())
}

/// The text `length`.
pub open spec fn length_name() -> Seq<char> {
    seq!['l', 'e', 'n', 'g', 't', 'h']
}

/// What a property read gives.
#[derive(Clone, Copy, PartialEq, Eq, Structural, Debug)]
pub enum PropertyRead {
    /// The property's value.
    Value(Value),
    /// Call `getter` with `receiver`; its result is the property's value.
    CallGetter { getter: Value, receiver: Value },
}

/// What reading a property does.
pub enum ReadOutcome {
    Read(PropertyRead),
    /// The method, bound to the receiver in a new heap object.
    Bind { method: Value, owner: usize },
    Fail(RuntimeError),
}

/// What reading property `name` of `obj` does on heap `h`; `optional`
/// for `obj?.name`.
pub open spec fn property_read(h: Seq<HeapObj>, obj: Value, name: Seq<char>, optional: bool) -> ReadOutcome {
    match obj {
        Value::Null => if optional {
            ReadOutcome::Read(PropertyRead::Value(Value::Null))
        } else {
            ReadOutcome::Fail(RuntimeError::PropertyOfNull)
        },
        Value::Obj(i) => if i < h.len() {
            match h[i as int] {
                HeapObj::Object(fs) => ReadOutcome::Read(PropertyRead::Value(field_value(fields_view(fs@), name))),
                HeapObj::Record(fs) => ReadOutcome::Read(PropertyRead::Value(field_value(fields_view(fs@), name))),
                HeapObj::Instance(d) => match class_member(h, d.class, MemberTable::Getters, name) {
                    Some((g, _)) => ReadOutcome::Read(PropertyRead::CallGetter { getter: g, receiver: obj }),
                    None => match key_index(fields_view(d.fields@), name) {
                        Some(j) => ReadOutcome::Read(PropertyRead::Value(fields_view(d.fields@)[j].1)),
                        None => match class_member(h, d.class, MemberTable::Methods, name) {
                            Some((m, o)) => ReadOutcome::Bind { method: m, owner: o },
                            None => ReadOutcome::Read(PropertyRead::Value(Value::Null)),
                        },
                    },
                },
                HeapObj::Class(_) => match class_member(h, i, MemberTable::StaticGetters, name) {
                    Some((g, _)) => ReadOutcome::Read(PropertyRead::CallGetter { getter: g, receiver: obj }),
                    None => match class_member(h, i, MemberTable::Statics, name) {
                        Some((v, _)) => ReadOutcome::Read(PropertyRead::Value(v)),
                        None => ReadOutcome::Read(PropertyRead::Value(Value::Null)),
                    },
                },
                HeapObj::Array(a) => ReadOutcome::Read(PropertyRead::Value(
                    if name == length_name() { Value::Int(a@.len() as i64) } else { Value::Null },
                )),
                HeapObj::Str(cs) => ReadOutcome::Read(PropertyRead::Value(
                    if name == length_name() { Value::Int(cs@.len() as i64) } else { Value::Null },
                )),
                _ => ReadOutcome::Read(PropertyRead::Value(Value::Null)),
            }
        } else {
            ReadOutcome::Read(PropertyRead::Value(Value::Null))
        },
        _ => ReadOutcome::Read(PropertyRead::Value(Value::Null)),
    }
}

/// A read with outcome `o` of a property of `obj` took heap `h0` to `h1`
/// and gave `r`.
pub open spec fn read_done(h0: Seq<HeapObj>, h1: Seq<HeapObj>, obj: Value, o: ReadOutcome, r: Result<PropertyRead, RuntimeError>) -> bool {
    match o {
        ReadOutcome::Read(p) => r == Ok::<PropertyRead, RuntimeError>(p) && h1 == h0,
        ReadOutcome::Bind { method, owner } => h1 == h0.push(HeapObj::BoundMethod(BoundData { receiver: obj, method, owner }))
            && r == Ok::<PropertyRead, RuntimeError>(PropertyRead::Value(Value::Obj(h0.len() as usize))),
        ReadOutcome::Fail(e) => r == Err::<PropertyRead, RuntimeError>(e) && h1 == h0,
    }
}

/// Table `t` of `c`.
fn table_ref(c: &ClassData, t: MemberTable) -> (r: &Vec<Field>)
    ensures
        fields_view(r@) == table(*c, t),
{
    match t {
        MemberTable::Methods => &c.methods,
        MemberTable::Statics => &c.statics,
        MemberTable::Getters => &c.getters,
        MemberTable::Setters => &c.setters,
        MemberTable::StaticGetters => &c.static_getters,
        MemberTable::StaticSetters => &c.static_setters,
    }
}

/// Looks member `name` of table `t` up from class `c`.
pub fn find_class_member(heap: &Heap, c: usize, t: MemberTable, name: &Vec<char>) -> (r: Option<(Value, usize)>)
    requires
        heap.wf(),
    ensures
        r == class_member(heap@, c, t, name@),
{
    let mut cur = c;
    let mut fuel = heap.len();
    while fuel > 0
        invariant
            heap.wf(),
            fuel <= heap@.len(),
            class_member(heap@, c, t, name@) == chain_find(heap@, cur, t, name@, fuel as nat),
        decreases fuel,
    {
        match heap.get(cur) {
            Some(HeapObj::Class(cd)) => {
                proof {
                    assert(obj_ok(heap@[cur as int]));
                }
                let tb = table_ref(cd, t);
                match find_field(tb, name) {
                    Some(j) => return Some((tb[j].value, cur)),
                    None => match cd.superclass {
                        Some(s) => {
                            cur = s;
                            fuel = fuel - 1;
                        },
                        None => return None,
                    },
                }
            },
            _ => return None,
        }
    }
    None
}

/// The text `length`.
fn length_text() -> (n: Vec<char>)
    ensures
        n@ == length_name(),
{
    let n = vec!['l', 'e', 'n', 'g', 't', 'h'];
    assert(n@ =~= length_name());
    n
}

/// Reads property `name` of `obj` (`obj?.name` when `optional`).
pub fn get_property(obj: Value, name: &Vec<char>, optional: bool, heap: &mut Heap) -> (r: Result<PropertyRead, RuntimeError>)
    requires
        old(heap).wf(),
    ensures
        final(heap).wf(),
        read_done(old(heap)@, final(heap)@, obj, property_read(old(heap)@, obj, name@, optional), r),
{
    let i = match obj {
        Value::Null => {
            return if optional { Ok(PropertyRead::Value(Value::Null)) } else { Err(RuntimeError::PropertyOfNull) };
        },
        Value::Obj(i) => i,
        _ => return Ok(PropertyRead::Value(Value::Null)),
    };
    let len_name = length_text();
    let is_len = crate::collections::chars_eq(name, &len_name);
    let bind: Option<(Value, usize)> = match heap.get(i) {
        Some(HeapObj::Object(fs)) | Some(HeapObj::Record(fs)) => {
            proof {
                assert(obj_ok(heap@[i as int]));
            }
            return match find_field(fs, name) {
                Some(j) => Ok(PropertyRead::Value(fs[j].value)),
                None => Ok(PropertyRead::Value(Value::Null)),
            };
        },
        Some(HeapObj::Instance(d)) => {
            proof {
                assert(obj_ok(heap@[i as int]));
            }
            match find_class_member(heap, d.class, MemberTable::Getters, name) {
                Some((g, _)) => return Ok(PropertyRead::CallGetter { getter: g, receiver: obj }),
                None => match find_field(&d.fields, name) {
                    Some(j) => return Ok(PropertyRead::Value(d.fields[j].value)),
                    None => match find_class_member(heap, d.class, MemberTable::Methods, name) {
                        Some(mo) => Some(mo),
                        None => return Ok(PropertyRead::Value(Value::Null)),
                    },
                },
            }
        },
        Some(HeapObj::Class(_)) => {
            return match find_class_member(heap, i, MemberTable::StaticGetters, name) {
                Some((g, _)) => Ok(PropertyRead::CallGetter { getter: g, receiver: obj }),
                None => match find_class_member(heap, i, MemberTable::Statics, name) {
                    Some((v, _)) => Ok(PropertyRead::Value(v)),
                    None => Ok(PropertyRead::Value(Value::Null)),
                },
            };
        },
        Some(HeapObj::Array(a)) => {
            return Ok(PropertyRead::Value(if is_len { Value::Int(a.len() as i64) } else { Value::Null }));
        },
        Some(HeapObj::Str(cs)) => {
            return Ok(PropertyRead::Value(if is_len { Value::Int(cs.len() as i64) } else { Value::Null }));
        },
        _ => return Ok(PropertyRead::Value(Value::Null)),
    };
    match bind {
        Some((m, o)) => {
            let v = heap.allocate(HeapObj::BoundMethod(BoundData { receiver: obj, method: m, owner: o }));
            Ok(PropertyRead::Value(v))
        },
        None => Ok(PropertyRead::Value(Value::Null)),
    }
}

/// What a property write gives.
#[derive(Clone, Copy, PartialEq, Eq, Structural, Debug)]
pub enum PropertyWrite {
    /// The property holds the value.
    Done,
    /// Call `setter` with `receiver` and the value.
    CallSetter { setter: Value, receiver: Value },
}

/// Writing `val` to property `name` of `obj` took heap `h0` to `h1` and
/// gave `r`.
pub open spec fn property_written(h0: Seq<HeapObj>, h1: Seq<HeapObj>, obj: Value, name: Seq<char>, val: Value, r: Result<PropertyWrite, RuntimeError>) -> bool {
    let unchanged_but = |i: usize| h1.len() == h0.len() && (forall|j: int| 0 <= j < h0.len() && j != i ==> h1[j] == h0[j]);
    match obj {
        Value::Null => r == Err::<PropertyWrite, RuntimeError>(RuntimeError::PropertyOfNull) && h1 == h0,
        Value::Obj(i) => if i < h0.len() {
            match h0[i as int] {
                HeapObj::Object(fs) => r == Ok::<PropertyWrite, RuntimeError>(PropertyWrite::Done) && unchanged_but(i)
                    && (h1[i as int] matches HeapObj::Object(fs2) && fields_view(fs2@) == set_field(fields_view(fs@), name, val)),
                HeapObj::Instance(d) => match class_member(h0, d.class, MemberTable::Setters, name) {
                    Some((s, _)) => r == Ok::<PropertyWrite, RuntimeError>(PropertyWrite::CallSetter { setter: s, receiver: obj }) && h1 == h0,
                    None => r == Ok::<PropertyWrite, RuntimeError>(PropertyWrite::Done) && unchanged_but(i)
                        && (h1[i as int] matches HeapObj::Instance(d2) && d2.class == d.class
                            && fields_view(d2.fields@) == set_field(fields_view(d.fields@), name, val)),
                },
                HeapObj::Class(_) => match class_member(h0, i, MemberTable::StaticSetters, name) {
                    Some((s, _)) => r == Ok::<PropertyWrite, RuntimeError>(PropertyWrite::CallSetter { setter: s, receiver: obj }) && h1 == h0,
                    None => r == Ok::<PropertyWrite, RuntimeError>(PropertyWrite::Done)
                        && member_defined(h0, h1, i, MemberTable::Statics, name, val),
                },
                _ => r == Err::<PropertyWrite, RuntimeError>(RuntimeError::CannotSetProperty) && h1 == h0,
            }
        } else {
            r == Err::<PropertyWrite, RuntimeError>(RuntimeError::CannotSetProperty) && h1 == h0
        },
        _ => r == Err::<PropertyWrite, RuntimeError>(RuntimeError::CannotSetProperty) && h1 == h0,
    }
}

/// Writes `val` to property `name` of `obj`.
pub fn set_property(obj: Value, name: &Vec<char>, val: Value, heap: &mut Heap) -> (r: Result<PropertyWrite, RuntimeError>)
    requires
        old(heap).wf(),
    ensures
        final(heap).wf(),
        property_written(old(heap)@, final(heap)@, obj, name@, val, r),
{
    let ghost h0 = heap@;
    let i = match obj {
        Value::Null => return Err(RuntimeError::PropertyOfNull),
        Value::Obj(i) => i,
        _ => return Err(RuntimeError::CannotSetProperty),
    };
    let kind: u8 = match heap.get(i) {
        Some(HeapObj::Object(_)) => 0u8,
        Some(HeapObj::Instance(_)) => 1u8,
        Some(HeapObj::Class(_)) => 2u8,
        _ => 3u8,
    };
    if kind == 3 {
        return Err(RuntimeError::CannotSetProperty);
    }
    if kind == 2 {
        return match find_class_member(heap, i, MemberTable::StaticSetters, name) {
            Some((s, _)) => Ok(PropertyWrite::CallSetter { setter: s, receiver: obj }),
            None => {
                let _ = define_member(obj, MemberTable::Statics, name, val, heap);
                Ok(PropertyWrite::Done)
            },
        };
    }
    if kind == 1 {
        let cls = match heap.get(i) {
            Some(HeapObj::Instance(d)) => d.class,
            _ => return Err(RuntimeError::CannotSetProperty),
        };
        if let Some((s, _)) = find_class_member(heap, cls, MemberTable::Setters, name) {
            return Ok(PropertyWrite::CallSetter { setter: s, receiver: obj });
        }
    }
    proof {
        assert(obj_ok(h0[i as int]));
    }
    let taken = heap.replace(i, HeapObj::Array(Vec::new()));
    let back = match taken {
        HeapObj::Object(fs) => {
            let mut fs = fs;
            store_field(&mut fs, name, val);
            HeapObj::Object(fs)
        },
        HeapObj::Instance(d) => {
            let mut fs = d.fields;
            store_field(&mut fs, name, val);
            HeapObj::Instance(crate::heap::InstanceData { class: d.class, fields: fs })
        },
        other => other,
    };
    let _ = heap.replace(i, back);
    Ok(PropertyWrite::Done)
}

/// Changing an object that is not a class leaves every class lookup as it
/// was.
proof fn lemma_chain_find_frame(h0: Seq<HeapObj>, h1: Seq<HeapObj>, i: int, c: usize, t: MemberTable, name: Seq<char>, fuel: nat)
    requires
        h1.len() == h0.len(),
        0 <= i < h0.len(),
        !(h0[i] is Class),
        !(h1[i] is Class),
        forall|j: int| 0 <= j < h0.len() && j != i ==> h1[j] == h0[j],
    ensures
        chain_find(h1, c, t, name, fuel) == chain_find(h0, c, t, name, fuel),
    decreases fuel,
{
    if fuel > 0 && c < h0.len() {
        if c as int != i {
            assert(h1[c as int] == h0[c as int]);
            match h0[c as int] {
                HeapObj::Class(cd) => match cd.superclass {
                    Some(s) => lemma_chain_find_frame(h0, h1, i, s, t, name, (fuel - 1) as nat),
                    None => {},
                },
                _ => {},
            }
        }
    }
}

/// A property written to an object, or to an instance whose class has no
/// setter or getter of that name, reads back as the value written; other
/// properties read as before.
pub proof fn lemma_property_write_reads_back(
    h0: Seq<HeapObj>,
    h1: Seq<HeapObj>,
    obj: Value,
    name: Seq<char>,
    val: Value,
    other: Seq<char>,
)
    requires
        crate::compare::objs_ok(h0),
        property_written(h0, h1, obj, name, val, Ok(PropertyWrite::Done)),
        obj matches Value::Obj(i) && i < h0.len() && (h0[i as int] is Object || (h0[i as int] matches HeapObj::Instance(d)
            && class_member(h0, d.class, MemberTable::Getters, name) is None
            && class_member(h0, d.class, MemberTable::Getters, other) is None
            && class_member(h0, d.class, MemberTable::Methods, other) is None)),
    ensures
        property_read(h1, obj, name, false) == ReadOutcome::Read(PropertyRead::Value(val)),
        other != name ==> property_read(h1, obj, other, false) == property_read(h0, obj, other, false),
{
    let i = obj->Obj_0;
    assert(obj_ok(h0[i as int]));
    match h0[i as int] {
        HeapObj::Object(fs) => {
            crate::collections::lemma_set_field_reads_back(fields_view(fs@), name, val, other);
        },
        HeapObj::Instance(d) => {
            let fv = fields_view(d.fields@);
            crate::collections::lemma_set_field_reads_back(fv, name, val, other);
            lemma_chain_find_frame(h0, h1, i as int, d.class, MemberTable::Getters, name, h0.len());
            lemma_chain_find_frame(h0, h1, i as int, d.class, MemberTable::Getters, other, h0.len());
            lemma_chain_find_frame(h0, h1, i as int, d.class, MemberTable::Methods, other, h0.len());
            let sf = crate::heap::set_field(fv, name, val);
            assert(key_index(sf, name) is Some) by {
                match key_index(fv, name) {
                    Some(j) => assert(sf[j].0 == name),
                    None => assert(sf[fv.len() as int].0 == name),
                }
            }
            if other != name {
                if key_index(fv, other) is None {
                    assert(key_index(sf, other) is None) by {
                        if key_index(sf, other) is Some {
                            let k = key_index(sf, other)->0;
                            assert(sf[k].0 == other);
                            match key_index(fv, name) {
                                Some(j) => {
                                    if k != j {
                                        assert(sf[k] == fv[k]);
                                    }
                                },
                                None => {
                                    if k < fv.len() {
                                        assert(sf[k] == fv[k]);
                                    }
                                },
                            }
                        }
                    }
                } else {
                    assert(key_index(sf, other) is Some) by {
                        let k = key_index(fv, other)->0;
                        assert(fv[k].0 == other);
                        match key_index(fv, name) {
                            Some(j) => {
                                assert(k != j);
                                assert(sf[k] == fv[k]);
                            },
                            None => {
                                assert(sf[k] == fv[k]);
                            },
                        }
                    }
                }
            }
        },
        _ => {},
    }
}

/// Reading a field that an object or a record has gives that field's
/// value, plainly or optionally; a field it lacks reads `null`.
pub proof fn lemma_field_read(h: Seq<HeapObj>, i: usize, fs: Seq<(Seq<char>, Value)>, name: Seq<char>, optional: bool)
    requires
        crate::collections::object_fields(h, Value::Obj(i)) == Some(fs),
        crate::heap::obj_ok(h[i as int]),
    ensures
        forall|j: int| 0 <= j < fs.len() && #[trigger] fs[j].0 == name
            ==> property_read(h, Value::Obj(i), name, optional) == ReadOutcome::Read(PropertyRead::Value(fs[j].1)),
        (forall|k: int| 0 <= k < fs.len() ==> #[trigger] fs[k].0 != name)
            ==> property_read(h, Value::Obj(i), name, optional) == ReadOutcome::Read(PropertyRead::Value(Value::Null)),
{
    assert(crate::heap::keys_distinct(fs));
    assert(property_read(h, Value::Obj(i), name, optional) == ReadOutcome::Read(PropertyRead::Value(field_value(fs, name))));
    assert forall|j: int| 0 <= j < fs.len() && #[trigger] fs[j].0 == name
        implies field_value(fs, name) == fs[j].1 by {
        assert(key_index(fs, name) is Some);
        let c = key_index(fs, name)->0;
        if c != j {
            assert(fs[c].0 != fs[j].0);
        }
    }
    if forall|k: int| 0 <= k < fs.len() ==> #[trigger] fs[k].0 != name {
        assert(key_index(fs, name) is None);
    }
}

/// Indexing an object or a record with a string reads what the property of
/// that name reads: `o[key]` and `o.name` give the same value when `key`
/// refers to the string `name`, plainly or optionally.
pub proof fn lemma_index_matches_property(h: Seq<HeapObj>, i: usize, key: Value, name: Seq<char>, optional: bool)
    requires
        crate::collections::object_fields(h, Value::Obj(i)) is Some,
        crate::heap::obj_ok(h[i as int]),
        crate::arith::str_of(h, key) == Some(name),
    ensures
        crate::collections::index_read(h, Value::Obj(i), key) matches crate::collections::IndexRead::Elem(v)
            && property_read(h, Value::Obj(i), name, optional) == ReadOutcome::Read(PropertyRead::Value(v)),
{
    let fs = crate::collections::object_fields(h, Value::Obj(i))->0;
    assert(crate::arith::value_text(h, key) == Some(name));
    lemma_field_read(h, i, fs, name, optional);
    assert(property_read(h, Value::Obj(i), name, optional) == ReadOutcome::Read(PropertyRead::Value(field_value(fs, name))));
}

/// The `length` of an array or a string is its number of elements or
/// characters; an array or a string has no other property.
pub proof fn lemma_length_property(h: Seq<HeapObj>, i: usize, name: Seq<char>, optional: bool)
    requires
        i < h.len(),
        h[i as int] is Array || h[i as int] is Str,
    ensures
        name == seq!['l', 'e', 'n', 'g', 't', 'h'] ==> property_read(h, Value::Obj(i), name, optional)
            == ReadOutcome::Read(PropertyRead::Value(Value::Int((match h[i as int] {
                HeapObj::Array(a) => a@.len(),
                HeapObj::Str(cs) => cs@.len(),
                _ => 0,
            }) as i64))),
        name != seq!['l', 'e', 'n', 'g', 't', 'h'] ==> property_read(h, Value::Obj(i), name, optional)
            == ReadOutcome::Read(PropertyRead::Value(Value::Null)),
{
}

} // verus!
