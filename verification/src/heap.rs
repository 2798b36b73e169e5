//! The heap: the compound values that a [`Value::Obj`] refers to.
use vstd::prelude::*;
use crate::value::Value;
use crate::bigint::BigNum;
use crate::decimal::DecNum;
use crate::classes::{ClassData, BoundData, class_ok};

verus! {

/// A named field of an object or a record.
#[derive(Debug)]
pub struct Field {
    pub key: Vec<char>,
    pub value: Value,
}

/// An integer range: `start`, `start + step`, … up to `end`, which it
/// includes when `inclusive`.
#[derive(Clone, Copy, PartialEq, Eq, Structural, Debug)]
pub struct RangeData {
    pub start: i64,
    pub end: i64,
    pub step: i64,
    pub inclusive: bool,
}

/// A value of an enum: the enum's name, the variant's tag, its payload, and
/// the class of the enum once the variant has joined it.
#[derive(Debug)]
pub struct VariantData {
    pub enum_name: Vec<char>,
    pub tag: i64,
    pub payload: Value,
    pub class_id: Option<usize>,
    /// The names of the variant's fields, when it has named fields.
    pub fields: Vec<Vec<char>>,
}

/// An instance: the class it is an instance of (a heap object number) and
/// its fields in their insertion order.
#[derive(Debug)]
pub struct InstanceData {
    pub class: usize,
    pub fields: Vec<Field>,
}

/// What a call of a closure needs to know of its function: how many
/// registers its parameters take (the callee slot included; an operand
/// names a register by one byte, so at most 256), whether the
/// last takes the rest of the arguments, whether it is a generator or an
/// async function, whether it is a class's constructor, and whether it
/// takes a receiver (`this`) in its first register.
#[derive(Clone, Copy, PartialEq, Eq, Structural, Debug)]
pub struct ProtoInfo {
    pub arity: usize,
    pub has_rest: bool,
    pub is_generator: bool,
    pub is_async: bool,
    pub is_constructor: bool,
    pub has_this: bool,
}

/// A heap object.
#[derive(Debug)]
pub enum HeapObj {
    /// A string, by its characters.
    Str(Vec<char>),
    /// A single character.
    Char(char),
    /// A growable array.
    Array(Vec<Value>),
    /// An immutable sequence.
    Tuple(Vec<Value>),
    /// An object: fields in their insertion order.
    Object(Vec<Field>),
    /// A record: an immutable object compared by value.
    Record(Vec<Field>),
    Range(RangeData),
    /// A byte buffer.
    Buffer(Vec<u8>),
    EnumVariant(VariantData),
    /// An arbitrary-precision integer.
    BigInt(BigNum),
    /// An exact decimal number.
    Decimal(DecNum),
    Class(ClassData),
    /// A method bound to its receiver.
    BoundMethod(BoundData),
    /// A closure of the machine's code, by what a call needs of its function.
    Closure(ProtoInfo),
    /// A function of the host, by its number in the host's table.
    NativeFn(u64),
    /// An instance of a class.
    Instance(InstanceData),
    /// A map: its entries in insertion order.
    ValueMap(Vec<MapEntry>),
}

/// An entry of a map.
#[derive(Clone, Copy, PartialEq, Eq, Structural, Debug)]
pub struct MapEntry {
    pub key: Value,
    pub value: Value,
}

/// The largest magnitude of a range bound or step that ranges are kept
/// within, so that every element of a range is a 64-bit integer.
pub open spec fn range_bound() -> int {
    0x1000_0000_0000_0000
}

/// A range whose element arithmetic stays within 64 bits.
pub open spec fn range_ok(r: RangeData) -> bool {
    &&& -range_bound() <= r.start <= range_bound()
    &&& -range_bound() <= r.end <= range_bound()
    &&& -range_bound() <= r.step <= range_bound()
    &&& r.step != 0
}

/// The fields of an object as key and value.
pub open spec fn fields_view(fs: Seq<Field>) -> Seq<(Seq<char>, Value)> {
    fs.map_values(|f: Field| (f.key@, f.value))
}

/// No key occurs twice.
pub open spec fn keys_distinct(fs: Seq<(Seq<char>, Value)>) -> bool {
    forall|i: int, j: int| 0 <= i < fs.len() && 0 <= j < fs.len() && i != j ==> fs[i].0 != fs[j].0
}

/// A heap object that the heap can hold: ranges keep their arithmetic
/// within 64 bits, objects, records and the tables of a class name each
/// field once.
pub open spec fn obj_ok(o: HeapObj) -> bool {
    match o {
        HeapObj::Range(r) => range_ok(r),
        HeapObj::Object(fs) => keys_distinct(fields_view(fs@)),
        HeapObj::Record(fs) => keys_distinct(fields_view(fs@)),
        HeapObj::Class(c) => class_ok(c),
        HeapObj::EnumVariant(e) => names_distinct(e.fields@),
        HeapObj::Closure(p) => p.arity <= 256,
        HeapObj::Instance(d) => keys_distinct(fields_view(d.fields@)),
        _ => true,
    }
}

/// No name occurs twice.
pub open spec fn names_distinct(ns: Seq<Vec<char>>) -> bool {
    forall|i: int, j: int| 0 <= i < ns.len() && 0 <= j < ns.len() && i != j ==> ns[i]@ != ns[j]@
}

/// The position of the field named `k`, if there is one.
pub open spec fn key_index(fs: Seq<(Seq<char>, Value)>, k: Seq<char>) -> Option<int> {
    if exists|i: int| 0 <= i < fs.len() && fs[i].0 == k {
        Some(choose|i: int| 0 <= i < fs.len() && fs[i].0 == k)
    } else {
        None
    }
}

/// The value of the field named `k`, `null` when there is none.
pub open spec fn field_value(fs: Seq<(Seq<char>, Value)>, k: Seq<char>) -> Value {
    match key_index(fs, k) {
        Some(i) => fs[i].1,
        None => Value::Null,
    }
}

/// `fs` with field `k` set to `v`: in place when it exists, else appended.
pub open spec fn set_field(fs: Seq<(Seq<char>, Value)>, k: Seq<char>, v: Value) -> Seq<(Seq<char>, Value)> {
    match key_index(fs, k) {
        Some(i) => fs.update(i, (k, v)),
        None => fs.push((k, v)),
    }
}

/// The heap of a running machine.
pub struct Heap {
    objs: Vec<HeapObj>,
}

impl View for Heap {
    type V = Seq<HeapObj>;

    closed spec fn view(&self) -> Seq<HeapObj> {
        self.objs@
    }
}

impl Heap {
    /// Every object is one the heap can hold.
    pub open spec fn wf(&self) -> bool {
        forall|i: int| 0 <= i < self@.len() ==> obj_ok(#[trigger] self@[i])
    }

    /// Whether `v` refers to an object of this heap.
    pub open spec fn holds(&self, idx: usize) -> bool {
        idx < self@.len()
    }

    /// An empty heap.
    pub fn new() -> (h: Heap)
        ensures
            h@ == Seq::<HeapObj>::empty(),
            h.wf(),
    {
        Heap { objs: Vec::new() }
    }

    /// The number of objects.
    pub fn len(&self) -> (n: usize)
        ensures
            n == self@.len(),
    {
        self.objs.len()
    }

    /// Adds `obj` and returns a reference to it.
    pub fn allocate(&mut self, obj: HeapObj) -> (v: Value)
        requires
            obj_ok(obj),
            old(self).wf(),
        ensures
            final(self)@ == old(self)@.push(obj),
            v == Value::Obj(old(self)@.len() as usize),
            final(self).wf(),
    {
        let n = self.objs.len();
        self.objs.push(obj);
        Value::Obj(n)
    }

    /// The object that `idx` names, if any.
    pub fn get(&self, idx: usize) -> (o: Option<&HeapObj>)
        ensures
            idx < self@.len() ==> o == Some(&self@[idx as int]),
            idx >= self@.len() ==> o is None,
    {
        if idx < self.objs.len() {
            Some(&self.objs[idx])
        } else {
            None
        }
    }

    /// Replaces object `idx` by `obj` and returns the object it held.
    pub fn replace(&mut self, idx: usize, obj: HeapObj) -> (prev: HeapObj)
        requires
            idx < old(self)@.len(),
            obj_ok(obj),
            old(self).wf(),
        ensures
            final(self)@ == old(self)@.update(idx as int, obj),
            prev == old(self)@[idx as int],
            final(self).wf(),
    {
        let mut o = obj;
        self.objs.set_and_swap(idx, &mut o);
        o
    }
}

} // verus!
