//! Classes: creating one, defining its methods, statics and accessors,
//! inheriting, and reading a method of the superclass.
use vstd::prelude::*;
use crate::value::Value;
use crate::heap::{Heap, HeapObj, Field, VariantData, fields_view, keys_distinct, key_index, set_field, obj_ok, names_distinct};
use crate::error::RuntimeError;
use crate::collections::{copy_chars, find_field, store_field};

verus! {

/// A class: its name, its superclass (a heap object number), the fields of
/// its instances in slot order, and its member tables, each keyed by
/// member name.
#[derive(Debug)]
pub struct ClassData {
    pub name: Vec<char>,
    pub superclass: Option<usize>,
    pub fields: Vec<Vec<char>>,
    pub methods: Vec<Field>,
    pub statics: Vec<Field>,
    pub getters: Vec<Field>,
    pub setters: Vec<Field>,
    pub static_getters: Vec<Field>,
    pub static_setters: Vec<Field>,
}

/// A method bound to a receiver, with the class whose method it is.
#[derive(Clone, Copy, PartialEq, Eq, Structural, Debug)]
pub struct BoundData {
    pub receiver: Value,
    pub method: Value,
    pub owner: usize,
}

/// The member tables of a class.
#[derive(Clone, Copy, PartialEq, Eq, Structural, Debug)]
pub enum MemberTable {
    Methods,
    Statics,
    Getters,
    Setters,
    StaticGetters,
    StaticSetters,
}

/// Table `t` of class `c`, by name and value.
pub open spec fn table(c: ClassData, t: MemberTable) -> Seq<(Seq<char>, Value)> {
    match t {
        MemberTable::Methods => fields_view(c.methods@),
        MemberTable::Statics => fields_view(c.statics@),
        MemberTable::Getters => fields_view(c.getters@),
        MemberTable::Setters => fields_view(c.setters@),
        MemberTable::StaticGetters => fields_view(c.static_getters@),
        MemberTable::StaticSetters => fields_view(c.static_setters@),
    }
}

/// Names by their characters.
pub open spec fn names_view(ns: Seq<Vec<char>>) -> Seq<Seq<char>> {
    ns.map_values(|n: Vec<char>| n@)
}

/// Every table of the class names each member once, and each field has
/// one slot.
pub open spec fn class_ok(c: ClassData) -> bool {
    &&& names_distinct(c.fields@)
    &&& keys_distinct(table(c, MemberTable::Methods))
    &&& keys_distinct(table(c, MemberTable::Statics))
    &&& keys_distinct(table(c, MemberTable::Getters))
    &&& keys_distinct(table(c, MemberTable::Setters))
    &&& keys_distinct(table(c, MemberTable::StaticGetters))
    &&& keys_distinct(table(c, MemberTable::StaticSetters))
}

/// The class that `v` refers to on heap `h`, if it does.
pub open spec fn class_at(h: Seq<HeapObj>, v: Value) -> Option<ClassData> {
    match v {
        Value::Obj(i) => if i < h.len() {
            match h[i as int] {
                HeapObj::Class(c) => Some(c),
                _ => None,
            }
        } else {
            None
        },
        _ => None,
    }
}

/// Class `ci` of heap `new_h` is class `ci` of `old_h` with member `name` of
/// table `t` set to `val`; every other object, table, the name and the
/// superclass are as they were.
pub open spec fn member_defined(old_h: Seq<HeapObj>, new_h: Seq<HeapObj>, ci: usize, t: MemberTable, name: Seq<char>, val: Value) -> bool {
    &&& new_h.len() == old_h.len()
    &&& forall|j: int| 0 <= j < old_h.len() && j != ci ==> new_h[j] == old_h[j]
    &&& old_h[ci as int] matches HeapObj::Class(c1)
    &&& new_h[ci as int] matches HeapObj::Class(c2)
    &&& c2.name@ == c1.name@
    &&& c2.superclass == c1.superclass
    &&& names_view(c2.fields@) == names_view(c1.fields@)
    &&& forall|u: MemberTable| #[trigger] table(c2, u) == if u == t { set_field(table(c1, t), name, val) } else { table(c1, u) }
}

/// A new class named `name`, with no superclass and no members.
pub fn op_class(name: &Vec<char>, heap: &mut Heap) -> (v: Value)
    requires
        old(heap).wf(),
    ensures
        final(heap).wf(),
        v == Value::Obj(old(heap)@.len() as usize),
        final(heap)@.len() == old(heap)@.len() + 1,
        final(heap)@.take(old(heap)@.len() as int) == old(heap)@,
        final(heap)@.last() matches HeapObj::Class(c) && c.name@ == name@ && c.superclass is None
            && c.fields@.len() == 0 && forall|u: MemberTable| #[trigger] table(c, u).len() == 0,
{
    let c = ClassData {
        name: copy_chars(name),
        superclass: None,
        fields: Vec::new(),
        methods: Vec::new(),
        statics: Vec::new(),
        getters: Vec::new(),
        setters: Vec::new(),
        static_getters: Vec::new(),
        static_setters: Vec::new(),
    };
    assert(class_ok(c));
    let ghost before = heap@;
    let v = heap.allocate(HeapObj::Class(c));
    assert(heap@.take(before.len() as int) =~= before);
    v
}

/// The heap object number of the class that `v` refers to.
fn class_index(v: Value, heap: &Heap) -> (r: Result<usize, RuntimeError>)
    ensures
        match class_at(heap@, v) {
            Some(_) => r == Ok::<usize, RuntimeError>(v->Obj_0),
            None => r == Err::<usize, RuntimeError>(RuntimeError::ExpectedClass),
        },
{
    match v {
        Value::Obj(i) => match heap.get(i) {
            Some(HeapObj::Class(_)) => Ok(i),
            _ => Err(RuntimeError::ExpectedClass),
        },
        _ => Err(RuntimeError::ExpectedClass),
    }
}

/// Sets member `name` of table `t` of class `c` to `val`.
fn set_member(c: &mut ClassData, t: MemberTable, name: &Vec<char>, val: Value)
    requires
        class_ok(*old(c)),
    ensures
        class_ok(*final(c)),
        final(c).name@ == old(c).name@,
        final(c).superclass == old(c).superclass,
        final(c).fields@ == old(c).fields@,
        forall|u: MemberTable| #[trigger] table(*final(c), u) == if u == t { set_field(table(*old(c), t), name@, val) } else { table(*old(c), u) },
{
    match t {
        MemberTable::Methods => store_field(&mut c.methods, name, val),
        MemberTable::Statics => store_field(&mut c.statics, name, val),
        MemberTable::Getters => store_field(&mut c.getters, name, val),
        MemberTable::Setters => store_field(&mut c.setters, name, val),
        MemberTable::StaticGetters => store_field(&mut c.static_getters, name, val),
        MemberTable::StaticSetters => store_field(&mut c.static_setters, name, val),
    }
}

/// Sets member `name` of table `t` of the class that `class_nv` refers to.
pub fn define_member(class_nv: Value, t: MemberTable, name: &Vec<char>, val: Value, heap: &mut Heap) -> (r: Result<(), RuntimeError>)
    requires
        old(heap).wf(),
    ensures
        final(heap).wf(),
        match class_at(old(heap)@, class_nv) {
            Some(_) => r is Ok && member_defined(old(heap)@, final(heap)@, class_nv->Obj_0, t, name@, val),
            None => r == Err::<(), RuntimeError>(RuntimeError::ExpectedClass) && final(heap)@ == old(heap)@,
        },
{
    let ci = match class_index(class_nv, heap) {
        Ok(ci) => ci,
        Err(e) => return Err(e),
    };
    let ghost before = heap@;
    proof {
        assert(obj_ok(before[ci as int]));
    }
    let taken = heap.replace(ci, HeapObj::Char(' '));
    let restored = match taken {
        HeapObj::Class(mut c) => {
            set_member(&mut c, t, name, val);
            HeapObj::Class(c)
        },
        other => other,
    };
    heap.replace(ci, restored);
    assert forall|j: int| 0 <= j < before.len() && j != ci implies heap@[j] == before[j] by {}
    Ok(())
}

/// The fields of a class once field `name` is declared: a new field takes
/// the next slot.
pub open spec fn declared(fields: Seq<Seq<char>>, name: Seq<char>) -> Seq<Seq<char>> {
    if fields.contains(name) { fields } else { fields.push(name) }
}

/// Declares instance field `name` of the class that `class_nv` refers to.
pub fn op_declare_field(class_nv: Value, name: &Vec<char>, heap: &mut Heap) -> (r: Result<(), RuntimeError>)
    requires
        old(heap).wf(),
    ensures
        final(heap).wf(),
        match class_at(old(heap)@, class_nv) {
            Some(c1) => r is Ok && {
                let ci = class_nv->Obj_0;
                &&& final(heap)@.len() == old(heap)@.len()
                &&& forall|j: int| 0 <= j < old(heap)@.len() && j != ci ==> final(heap)@[j] == old(heap)@[j]
                &&& final(heap)@[ci as int] matches HeapObj::Class(c2)
                &&& c2.name@ == c1.name@
                &&& c2.superclass == c1.superclass
                &&& names_view(c2.fields@) == declared(names_view(c1.fields@), name@)
                &&& forall|u: MemberTable| #[trigger] table(c2, u) == table(c1, u)
            },
            None => r == Err::<(), RuntimeError>(RuntimeError::ExpectedClass) && final(heap)@ == old(heap)@,
        },
{
    let ci = match class_index(class_nv, heap) {
        Ok(ci) => ci,
        Err(e) => return Err(e),
    };
    let ghost before = heap@;
    proof {
        assert(obj_ok(before[ci as int]));
    }
    let taken = heap.replace(ci, HeapObj::Char(' '));
    let restored = match taken {
        HeapObj::Class(mut c) => {
            let ghost fv = names_view(c.fields@);
            let mut found = false;
            let mut j: usize = 0;
            while j < c.fields.len()
                invariant
                    j <= c.fields@.len(),
                    fv == names_view(c.fields@),
                    found == exists|w: int| 0 <= w < j && fv[w] == name@,
                decreases c.fields@.len() - j,
            {
                let eq = crate::collections::chars_eq(&c.fields[j], name);
                assert(fv[j as int] == c.fields@[j as int]@);
                if eq {
                    found = true;
                }
                proof {
                    if !eq && exists|w: int| 0 <= w < j + 1 && fv[w] == name@ {
                        let w = choose|w: int| 0 <= w < j + 1 && fv[w] == name@;
                        assert(w < j);
                    }
                }
                j = j + 1;
            }
            assert(found == fv.contains(name@));
            if !found {
                let ghost prev = c.fields@;
                c.fields.push(copy_chars(name));
                assert(names_view(c.fields@) =~= fv.push(name@));
                assert forall|a: int, b: int| 0 <= a < c.fields@.len() && 0 <= b < c.fields@.len() && a != b
                    implies c.fields@[a]@ != c.fields@[b]@ by {
                    if a < prev.len() && b < prev.len() {
                        assert(c.fields@[a] == prev[a]);
                        assert(c.fields@[b] == prev[b]);
                    } else if a < prev.len() {
                        assert(fv[a] == prev[a]@);
                    } else {
                        assert(fv[b] == prev[b]@);
                    }
                }
            }
            HeapObj::Class(c)
        },
        other => other,
    };
    heap.replace(ci, restored);
    assert forall|j: int| 0 <= j < before.len() && j != ci implies heap@[j] == before[j] by {}
    Ok(())
}

/// Defines method `name` of a class.
pub fn op_method(class_nv: Value, name: &Vec<char>, method_nv: Value, heap: &mut Heap) -> (r: Result<(), RuntimeError>)
    requires
        old(heap).wf(),
    ensures
        final(heap).wf(),
        match class_at(old(heap)@, class_nv) {
            Some(_) => r is Ok && member_defined(old(heap)@, final(heap)@, class_nv->Obj_0, MemberTable::Methods, name@, method_nv),
            None => r == Err::<(), RuntimeError>(RuntimeError::ExpectedClass) && final(heap)@ == old(heap)@,
        },
{
    define_member(class_nv, MemberTable::Methods, name, method_nv, heap)
}

/// Defines getter `name` of a class.
pub fn op_define_getter(class_nv: Value, name: &Vec<char>, closure_nv: Value, heap: &mut Heap) -> (r: Result<(), RuntimeError>)
    requires
        old(heap).wf(),
    ensures
        final(heap).wf(),
        match class_at(old(heap)@, class_nv) {
            Some(_) => r is Ok && member_defined(old(heap)@, final(heap)@, class_nv->Obj_0, MemberTable::Getters, name@, closure_nv),
            None => r == Err::<(), RuntimeError>(RuntimeError::ExpectedClass) && final(heap)@ == old(heap)@,
        },
{
    define_member(class_nv, MemberTable::Getters, name, closure_nv, heap)
}

/// Defines setter `name` of a class.
pub fn op_define_setter(class_nv: Value, name: &Vec<char>, closure_nv: Value, heap: &mut Heap) -> (r: Result<(), RuntimeError>)
    requires
        old(heap).wf(),
    ensures
        final(heap).wf(),
        match class_at(old(heap)@, class_nv) {
            Some(_) => r is Ok && member_defined(old(heap)@, final(heap)@, class_nv->Obj_0, MemberTable::Setters, name@, closure_nv),
            None => r == Err::<(), RuntimeError>(RuntimeError::ExpectedClass) && final(heap)@ == old(heap)@,
        },
{
    define_member(class_nv, MemberTable::Setters, name, closure_nv, heap)
}

/// Defines static getter `name` of a class.
pub fn op_define_static_getter(class_nv: Value, name: &Vec<char>, closure_nv: Value, heap: &mut Heap) -> (r: Result<(), RuntimeError>)
    requires
        old(heap).wf(),
    ensures
        final(heap).wf(),
        match class_at(old(heap)@, class_nv) {
            Some(_) => r is Ok && member_defined(old(heap)@, final(heap)@, class_nv->Obj_0, MemberTable::StaticGetters, name@, closure_nv),
            None => r == Err::<(), RuntimeError>(RuntimeError::ExpectedClass) && final(heap)@ == old(heap)@,
        },
{
    define_member(class_nv, MemberTable::StaticGetters, name, closure_nv, heap)
}

/// Defines static setter `name` of a class.
pub fn op_define_static_setter(class_nv: Value, name: &Vec<char>, closure_nv: Value, heap: &mut Heap) -> (r: Result<(), RuntimeError>)
    requires
        old(heap).wf(),
    ensures
        final(heap).wf(),
        match class_at(old(heap)@, class_nv) {
            Some(_) => r is Ok && member_defined(old(heap)@, final(heap)@, class_nv->Obj_0, MemberTable::StaticSetters, name@, closure_nv),
            None => r == Err::<(), RuntimeError>(RuntimeError::ExpectedClass) && final(heap)@ == old(heap)@,
        },
{
    define_member(class_nv, MemberTable::StaticSetters, name, closure_nv, heap)
}

/// What defining static `name` of a class stores: an enum value joins the
/// class, as a copy of it that names the class (allocated next); any other
/// value is stored as it is.
pub open spec fn static_stored(h: Seq<HeapObj>, val: Value) -> Value {
    match val {
        Value::Obj(i) => if i < h.len() && h[i as int] is EnumVariant {
            Value::Obj(h.len() as usize)
        } else {
            val
        },
        _ => val,
    }
}

/// Defines static `name` of a class. An enum value stored here joins the
/// class: the stored copy names it, so values built from it find their
/// methods through the class.
pub fn op_define_static(class_nv: Value, name: &Vec<char>, val_nv: Value, heap: &mut Heap) -> (r: Result<(), RuntimeError>)
    requires
        old(heap).wf(),
    ensures
        final(heap).wf(),
        match class_at(old(heap)@, class_nv) {
            Some(_) => r is Ok && {
                let stored = static_stored(old(heap)@, val_nv);
                if stored == val_nv {
                    member_defined(old(heap)@, final(heap)@, class_nv->Obj_0, MemberTable::Statics, name@, val_nv)
                } else {
                    &&& final(heap)@.len() == old(heap)@.len() + 1
                    &&& final(heap)@.last() matches HeapObj::EnumVariant(e)
                    &&& old(heap)@[val_nv->Obj_0 as int] matches HeapObj::EnumVariant(o)
                    &&& e.enum_name@ == o.enum_name@ && e.tag == o.tag && e.payload == o.payload
                    &&& e.class_id == Some(class_nv->Obj_0)
                    &&& member_defined(
                        old(heap)@.push(final(heap)@.last()),
                        final(heap)@,
                        class_nv->Obj_0,
                        MemberTable::Statics,
                        name@,
                        stored,
                    )
                }
            },
            None => r == Err::<(), RuntimeError>(RuntimeError::ExpectedClass) && final(heap)@ == old(heap)@,
        },
{
    let ci = match class_index(class_nv, heap) {
        Ok(ci) => ci,
        Err(e) => return Err(e),
    };
    let copy = match val_nv {
        Value::Obj(i) => match heap.get(i) {
            Some(HeapObj::EnumVariant(e)) => Some(VariantData {
                enum_name: copy_chars(&e.enum_name),
                tag: e.tag,
                payload: e.payload,
                class_id: Some(ci),
                fields: crate::collections::copy_names(&e.fields),
            }),
            _ => None,
        },
        _ => None,
    };
    match copy {
        Some(e) => {
            let _n = heap.len();
            let ghost before = heap@;
            assert(static_stored(before, val_nv) == Value::Obj(before.len() as usize));
            assert(static_stored(before, val_nv) != val_nv);
            let stored = heap.allocate(HeapObj::EnumVariant(e));
            let ghost mid = heap@;
            assert(mid.take(before.len() as int) =~= before);
            assert(mid =~= before.push(mid.last()));
            let r = define_member(class_nv, MemberTable::Statics, name, stored, heap);
            assert(heap@.last() == mid.last());
            r
        },
        None => define_member(class_nv, MemberTable::Statics, name, val_nv, heap),
    }
}

/// What reading method `name` of the superclass gives: the superclass's
/// method bound to `receiver`, allocated next.
pub open spec fn super_method(h: Seq<HeapObj>, class_nv: Value, name: Seq<char>) -> Result<(usize, Value), RuntimeError> {
    match class_at(h, class_nv) {
        None => Err(RuntimeError::ExpectedClass),
        Some(c) => match c.superclass {
            Some(s) => match class_at(h, Value::Obj(s)) {
                Some(sc) => match key_index(table(sc, MemberTable::Methods), name) {
                    Some(k) => Ok((s, table(sc, MemberTable::Methods)[k].1)),
                    None => Err(RuntimeError::MethodNotFound),
                },
                None => Err(RuntimeError::NoSuperclass),
            },
            None => Err(RuntimeError::NoSuperclass),
        },
    }
}

/// `super.name` in a method of class `class_nv` with receiver `receiver`:
/// the superclass's method `name`, bound to the receiver.
pub fn op_get_super(class_nv: Value, name: &Vec<char>, receiver: Value, heap: &mut Heap) -> (r: Result<Value, RuntimeError>)
    requires
        old(heap).wf(),
    ensures
        final(heap).wf(),
        match super_method(old(heap)@, class_nv, name@) {
            Ok((s, m)) => r == Ok::<Value, RuntimeError>(Value::Obj(old(heap)@.len() as usize))
                && final(heap)@ == old(heap)@.push(HeapObj::BoundMethod(BoundData { receiver, method: m, owner: s })),
            Err(e) => r == Err::<Value, RuntimeError>(e) && final(heap)@ == old(heap)@,
        },
{
    let ci = match class_index(class_nv, heap) {
        Ok(ci) => ci,
        Err(e) => return Err(e),
    };
    let s = match heap.get(ci) {
        Some(HeapObj::Class(c)) => match c.superclass {
            Some(s) => s,
            None => return Err(RuntimeError::NoSuperclass),
        },
        _ => return Err(RuntimeError::ExpectedClass),
    };
    let method = match heap.get(s) {
        Some(HeapObj::Class(sc)) => {
            proof {
                assert(obj_ok(heap@[s as int]));
            }
            match find_field(&sc.methods, name) {
                Some(k) => sc.methods[k].value,
                None => return Err(RuntimeError::MethodNotFound),
            }
        },
        _ => return Err(RuntimeError::NoSuperclass),
    };
    Ok(heap.allocate(HeapObj::BoundMethod(BoundData { receiver, method, owner: s })))
}

/// A copy of a member table.
fn copy_fields(fs: &Vec<Field>) -> (r: Vec<Field>)
    ensures
        fields_view(r@) == fields_view(fs@),
{
    let mut r: Vec<Field> = Vec::new();
    let mut k: usize = 0;
    while k < fs.len()
        invariant
            k <= fs@.len(),
            fields_view(r@) == fields_view(fs@).take(k as int),
        decreases fs@.len() - k,
    {
        let key = copy_chars(&fs[k].key);
        let f = Field { key, value: fs[k].value };
        let ghost prev = r@;
        r.push(f);
        assert(fields_view(r@) =~= fields_view(prev).push((f.key@, f.value)));
        assert(fields_view(r@) =~= fields_view(fs@).take(k + 1));
        k = k + 1;
    }
    assert(fields_view(fs@).take(fs@.len() as int) =~= fields_view(fs@));
    r
}

/// The fields of `own` that `sup` does not have, in their order.
pub open spec fn own_fields(own: Seq<Seq<char>>, sup: Seq<Seq<char>>) -> Seq<Seq<char>>
    decreases own.len(),
{
    if own.len() == 0 {
        Seq::empty()
    } else {
        let rest = own_fields(own.drop_last(), sup);
        if sup.contains(own.last()) { rest } else { rest.push(own.last()) }
    }
}

/// The fields that a subclass with fields `own` has once it inherits from
/// a class with fields `sup`: those of `sup` in their slots, then its own
/// in their former order.
pub open spec fn inherited_fields(sup: Seq<Seq<char>>, own: Seq<Seq<char>>) -> Seq<Seq<char>> {
    sup + own_fields(own, sup)
}

/// The own fields are fields of `own` that `sup` lacks, each once.
proof fn lemma_own_fields(own: Seq<Seq<char>>, sup: Seq<Seq<char>>)
    requires
        forall|i: int, j: int| 0 <= i < own.len() && 0 <= j < own.len() && i != j ==> own[i] != own[j],
    ensures
        forall|k: int| 0 <= k < own_fields(own, sup).len() ==> own.contains(#[trigger] own_fields(own, sup)[k]) && !sup.contains(own_fields(own, sup)[k]),
        forall|i: int, j: int| 0 <= i < own_fields(own, sup).len() && 0 <= j < own_fields(own, sup).len() && i != j
            ==> own_fields(own, sup)[i] != own_fields(own, sup)[j],
    decreases own.len(),
{
    if own.len() > 0 {
        let d = own.drop_last();
        lemma_own_fields(d, sup);
        let rest = own_fields(d, sup);
        assert forall|k: int| 0 <= k < rest.len() implies own.contains(#[trigger] rest[k]) && rest[k] != own.last() by {
            let w = choose|w: int| 0 <= w < d.len() && d[w] == rest[k];
            assert(own[w] == rest[k]);
            assert(w != own.len() - 1);
        }
        if !sup.contains(own.last()) {
            let r = rest.push(own.last());
            assert(own.contains(own[own.len() - 1]));
            assert forall|k: int| 0 <= k < r.len() implies own.contains(#[trigger] r[k]) && !sup.contains(r[k]) by {
                if k < rest.len() {
                    assert(r[k] == rest[k]);
                }
            }
        }
    }
}

/// The fields of a class inheriting from one with fields `sup`.
fn inherit_fields(sup: &Vec<Vec<char>>, own: &Vec<Vec<char>>) -> (r: Vec<Vec<char>>)
    requires
        names_distinct(sup@),
        names_distinct(own@),
    ensures
        names_view(r@) == inherited_fields(names_view(sup@), names_view(own@)),
        names_distinct(r@),
{
    let ghost sv = names_view(sup@);
    let ghost ov = names_view(own@);
    let mut r = crate::collections::copy_names(sup);
    assert(names_view(r@) =~= sv);
    let mut k: usize = 0;
    while k < own.len()
        invariant
            k <= own@.len(),
            sv == names_view(sup@),
            ov == names_view(own@),
            names_view(r@) == sv + own_fields(ov.take(k as int), sv),
        decreases own@.len() - k,
    {
        let mut found = false;
        let mut j: usize = 0;
        while j < sup.len()
            invariant
                j <= sup@.len(),
                k < own@.len(),
                sv == names_view(sup@),
                found == exists|w: int| 0 <= w < j && sv[w] == own@[k as int]@,
            decreases sup@.len() - j,
        {
            let eq = crate::collections::chars_eq(&sup[j], &own[k]);
            assert(sv[j as int] == sup@[j as int]@);
            if eq {
                found = true;
            }
            proof {
                if !eq && exists|w: int| 0 <= w < j + 1 && sv[w] == own@[k as int]@ {
                    let w = choose|w: int| 0 <= w < j + 1 && sv[w] == own@[k as int]@;
                    assert(w < j);
                }
            }
            j = j + 1;
        }
        assert(ov.take(k + 1).drop_last() =~= ov.take(k as int));
        assert(ov.take(k + 1).last() == own@[k as int]@);
        assert(found == sv.contains(own@[k as int]@));
        if !found {
            let ghost prev = r@;
            r.push(copy_chars(&own[k]));
            assert(names_view(r@) =~= names_view(prev).push(own@[k as int]@));
        }
        k = k + 1;
        assert(names_view(r@) =~= sv + own_fields(ov.take(k as int), sv));
    }
    assert(ov.take(own@.len() as int) =~= ov);
    proof {
        let of = own_fields(ov, sv);
        assert forall|i: int, j: int| 0 <= i < ov.len() && 0 <= j < ov.len() && i != j implies ov[i] != ov[j] by {
            assert(own@[i]@ != own@[j]@);
        }
        lemma_own_fields(ov, sv);
        assert forall|i: int, j: int| 0 <= i < r@.len() && 0 <= j < r@.len() && i != j implies r@[i]@ != r@[j]@ by {
            assert(r@[i]@ == names_view(r@)[i]);
            assert(r@[j]@ == names_view(r@)[j]);
            if i < sv.len() && j < sv.len() {
                assert(sup@[i]@ != sup@[j]@);
            } else if i < sv.len() {
                assert(names_view(r@)[j] == of[j - sv.len()]);
                assert(sv.contains(sv[i]));
            } else if j < sv.len() {
                assert(names_view(r@)[i] == of[i - sv.len()]);
                assert(sv.contains(sv[j]));
            } else {
                assert(names_view(r@)[i] == of[i - sv.len()]);
                assert(names_view(r@)[j] == of[j - sv.len()]);
            }
        }
    }
    r
}

/// Makes class `sub_nv` inherit from class `super_nv`: the subclass takes
/// the superclass as its superclass and a copy of its methods, getters and
/// setters; its fields become the superclass's, in their slots, followed
/// by its own that the superclass lacks, in their former order; its name
/// and statics stay.
pub fn op_inherit(sub_nv: Value, super_nv: Value, heap: &mut Heap) -> (r: Result<(), RuntimeError>)
    requires
        old(heap).wf(),
    ensures
        final(heap).wf(),
        match (class_at(old(heap)@, super_nv), class_at(old(heap)@, sub_nv)) {
            (None, _) => r == Err::<(), RuntimeError>(RuntimeError::ExpectedClass) && final(heap)@ == old(heap)@,
            (Some(_), None) => r == Err::<(), RuntimeError>(RuntimeError::NotAClass) && final(heap)@ == old(heap)@,
            (Some(sc), Some(c1)) => r is Ok && {
                let si = sub_nv->Obj_0;
                &&& final(heap)@.len() == old(heap)@.len()
                &&& forall|j: int| 0 <= j < old(heap)@.len() && j != si ==> final(heap)@[j] == old(heap)@[j]
                &&& final(heap)@[si as int] matches HeapObj::Class(c2)
                &&& c2.name@ == c1.name@
                &&& c2.superclass == Some(super_nv->Obj_0)
                &&& names_view(c2.fields@) == inherited_fields(names_view(sc.fields@), names_view(c1.fields@))
                &&& table(c2, MemberTable::Methods) == table(sc, MemberTable::Methods)
                &&& table(c2, MemberTable::Getters) == table(sc, MemberTable::Getters)
                &&& table(c2, MemberTable::Setters) == table(sc, MemberTable::Setters)
                &&& table(c2, MemberTable::Statics) == table(c1, MemberTable::Statics)
                &&& table(c2, MemberTable::StaticGetters) == table(c1, MemberTable::StaticGetters)
                &&& table(c2, MemberTable::StaticSetters) == table(c1, MemberTable::StaticSetters)
            },
        },
{
    let sup = match class_index(super_nv, heap) {
        Ok(i) => i,
        Err(e) => return Err(e),
    };
    let si = match class_index(sub_nv, heap) {
        Ok(i) => i,
        Err(_) => return Err(RuntimeError::NotAClass),
    };
    let ghost before = heap@;
    proof {
        assert(obj_ok(before[sup as int]));
        assert(obj_ok(before[si as int]));
    }
    let (methods, getters, setters) = match heap.get(sup) {
        Some(HeapObj::Class(sc)) => (copy_fields(&sc.methods), copy_fields(&sc.getters), copy_fields(&sc.setters)),
        _ => return Err(RuntimeError::ExpectedClass),
    };
    let fields = match (heap.get(sup), heap.get(si)) {
        (Some(HeapObj::Class(sc)), Some(HeapObj::Class(c1))) => inherit_fields(&sc.fields, &c1.fields),
        _ => return Err(RuntimeError::ExpectedClass),
    };
    let taken = heap.replace(si, HeapObj::Char(' '));
    let restored = match taken {
        HeapObj::Class(c) => HeapObj::Class(ClassData {
            name: c.name,
            superclass: Some(sup),
            fields,
            methods,
            statics: c.statics,
            getters,
            setters,
            static_getters: c.static_getters,
            static_setters: c.static_setters,
        }),
        other => other,
    };
    heap.replace(si, restored);
    assert forall|j: int| 0 <= j < before.len() && j != si implies heap@[j] == before[j] by {}
    Ok(())
}

/// The arguments of a class member definition from compiled code: the
/// class, the function, the constant that names the member, and the kind
/// of member (method, static, getter, setter, static getter, static setter).
#[derive(Clone, Copy, PartialEq, Eq, Structural, Debug)]
pub struct JitClassMemberArgs {
    pub class_val: Value,
    pub fn_val: Value,
    pub name_idx: usize,
    pub kind: u8,
}

/// The table that member kind `kind` defines into.
pub open spec fn kind_table(kind: u8) -> MemberTable {
    if kind == 0 {
        MemberTable::Methods
    } else if kind == 1 {
        MemberTable::Statics
    } else if kind == 2 {
        MemberTable::Getters
    } else if kind == 3 {
        MemberTable::Setters
    } else if kind == 4 {
        MemberTable::StaticGetters
    } else {
        MemberTable::StaticSetters
    }
}

/// Defines the member that `args` describes, named `name`: a static goes
/// through [`op_define_static`], every other kind into its table.
pub fn class_member_op(args: JitClassMemberArgs, name: &Vec<char>, heap: &mut Heap) -> (r: Result<(), RuntimeError>)
    requires
        old(heap).wf(),
        args.kind <= 5,
    ensures
        final(heap).wf(),
        class_at(old(heap)@, args.class_val) is None
            ==> r == Err::<(), RuntimeError>(RuntimeError::ExpectedClass) && final(heap)@ == old(heap)@,
        class_at(old(heap)@, args.class_val) is Some && args.kind != 1 ==> r is Ok && member_defined(
            old(heap)@,
            final(heap)@,
            args.class_val->Obj_0,
            kind_table(args.kind),
            name@,
            args.fn_val,
        ),
        class_at(old(heap)@, args.class_val) is Some && args.kind == 1 && static_stored(old(heap)@, args.fn_val) == args.fn_val
            ==> r is Ok && member_defined(old(heap)@, final(heap)@, args.class_val->Obj_0, MemberTable::Statics, name@, args.fn_val),
{
    match args.kind {
        0 => op_method(args.class_val, name, args.fn_val, heap),
        1 => op_define_static(args.class_val, name, args.fn_val, heap),
        2 => op_define_getter(args.class_val, name, args.fn_val, heap),
        3 => op_define_setter(args.class_val, name, args.fn_val, heap),
        4 => op_define_static_getter(args.class_val, name, args.fn_val, heap),
        _ => op_define_static_setter(args.class_val, name, args.fn_val, heap),
    }
}

/// A member defined on a class reads back from its table, and every other
/// member of that table reads as before.
pub proof fn lemma_member_reads_back(
    old_h: Seq<HeapObj>,
    new_h: Seq<HeapObj>,
    ci: usize,
    t: MemberTable,
    name: Seq<char>,
    val: Value,
    other: Seq<char>,
)
    requires
        ci < old_h.len(),
        obj_ok(old_h[ci as int]),
        member_defined(old_h, new_h, ci, t, name, val),
    ensures
        new_h[ci as int] matches HeapObj::Class(c2) && old_h[ci as int] matches HeapObj::Class(c1)
            && crate::heap::field_value(table(c2, t), name) == val
            && (other != name ==> crate::heap::field_value(table(c2, t), other) == crate::heap::field_value(table(c1, t), other)),
{
    if let (HeapObj::Class(c1), HeapObj::Class(c2)) = (old_h[ci as int], new_h[ci as int]) {
        assert(table(c2, t) == set_field(table(c1, t), name, val));
        crate::collections::lemma_set_field_reads_back(table(c1, t), name, val, other);
    }
}

/// After a class inherits, `super.name` in it finds the superclass's method
/// `name` when the superclass has one.
pub proof fn lemma_inherit_then_super(old_h: Seq<HeapObj>, new_h: Seq<HeapObj>, sub_nv: Value, super_nv: Value, name: Seq<char>)
    requires
        class_at(old_h, super_nv) is Some,
        class_at(old_h, sub_nv) is Some,
        sub_nv != super_nv,
        key_index(table(class_at(old_h, super_nv)->0, MemberTable::Methods), name) is Some,
        ({
            let si = sub_nv->Obj_0;
            let sc = class_at(old_h, super_nv)->0;
            let c1 = class_at(old_h, sub_nv)->0;
            &&& new_h.len() == old_h.len()
            &&& forall|j: int| 0 <= j < old_h.len() && j != si ==> new_h[j] == old_h[j]
            &&& new_h[si as int] matches HeapObj::Class(c2)
            &&& c2.superclass == Some(super_nv->Obj_0)
        }),
    ensures
        super_method(new_h, sub_nv, name) matches Ok((s, m))
            && s == super_nv->Obj_0
            && m == field_of_class(old_h, super_nv, name),
{
    let si = sub_nv->Obj_0;
    let s = super_nv->Obj_0;
    assert(s != si);
    assert(new_h[s as int] == old_h[s as int]);
}

/// Method `name` of the class that `v` refers to.
pub open spec fn field_of_class(h: Seq<HeapObj>, v: Value, name: Seq<char>) -> Value {
    crate::heap::field_value(table(class_at(h, v)->0, MemberTable::Methods), name)
}

} // verus!
