use varn_vm::advanced::{assert_not_null, get_enum_tag, is_array, op_in, parse_usize, typeof_val, RuntimeKind};
use varn_vm::collections::{
    array_extend, array_get_index, array_length, array_pop, array_push, array_set_index, get_index,
    object_keys, object_merge, object_rest, set_index,
};
use varn_vm::error::{ArrayOp, ObjectOp, RuntimeError, VmError};
use varn_vm::heap::{Field, Heap, HeapObj, RangeData, VariantData};
use varn_vm::value::Value;

fn string(heap: &mut Heap, s: &str) -> Value {
    heap.allocate(HeapObj::Str(s.chars().collect()))
}

fn array(heap: &mut Heap, items: Vec<Value>) -> Value {
    heap.allocate(HeapObj::Array(items))
}

fn object(heap: &mut Heap, fields: Vec<(&str, Value)>) -> Value {
    let fs = fields
        .into_iter()
        .map(|(k, v)| Field { key: k.chars().collect(), value: v })
        .collect();
    heap.allocate(HeapObj::Object(fs))
}

fn elems(heap: &Heap, v: Value) -> Vec<Value> {
    match v {
        Value::Obj(i) => match heap.get(i) {
            Some(HeapObj::Array(a)) => a.clone(),
            _ => panic!("not an array"),
        },
        _ => panic!("not a reference"),
    }
}

fn text_of(heap: &Heap, v: Value) -> String {
    match v {
        Value::Obj(i) => match heap.get(i) {
            Some(HeapObj::Str(cs)) => cs.iter().collect(),
            _ => panic!("not a string"),
        },
        _ => panic!("not a reference"),
    }
}

fn field_names(heap: &Heap, v: Value) -> Vec<String> {
    match v {
        Value::Obj(i) => match heap.get(i) {
            Some(HeapObj::Object(fs)) | Some(HeapObj::Record(fs)) => {
                fs.iter().map(|f| f.key.iter().collect()).collect()
            }
            _ => panic!("not an object"),
        },
        _ => panic!("not a reference"),
    }
}

#[test]
fn array_read_and_write_back() {
    let mut h = Heap::new();
    let a = array(&mut h, vec![Value::Int(1), Value::Int(2)]);
    assert_eq!(get_index(a, Value::Int(1), &mut h), Ok(Value::Int(2)));
    assert_eq!(get_index(a, Value::Int(5), &mut h), Ok(Value::Null));
    assert_eq!(get_index(a, Value::Int(-1), &mut h), Ok(Value::Null));
    assert_eq!(set_index(a, Value::Int(1), Value::Bool(true), &mut h), Ok(()));
    assert_eq!(get_index(a, Value::Int(1), &mut h), Ok(Value::Bool(true)));
    assert_eq!(get_index(a, Value::Int(0), &mut h), Ok(Value::Int(1)));
    // Writing past the end pads with nulls.
    assert_eq!(array_set_index(a, Value::Int(4), Value::Int(9), &mut h), Ok(()));
    assert_eq!(
        elems(&h, a),
        vec![Value::Int(1), Value::Bool(true), Value::Null, Value::Null, Value::Int(9)]
    );
    assert_eq!(array_get_index(a, Value::Int(4), &mut h), Ok(Value::Int(9)));
}

#[test]
fn object_field_write_reads_back() {
    let mut h = Heap::new();
    let o = object(&mut h, vec![("a", Value::Int(1))]);
    let ka = string(&mut h, "a");
    let kb = string(&mut h, "b");
    assert_eq!(get_index(o, kb, &mut h), Ok(Value::Null));
    assert_eq!(set_index(o, kb, Value::Int(2), &mut h), Ok(()));
    assert_eq!(set_index(o, ka, Value::Int(3), &mut h), Ok(()));
    assert_eq!(get_index(o, ka, &mut h), Ok(Value::Int(3)));
    assert_eq!(get_index(o, kb, &mut h), Ok(Value::Int(2)));
    assert_eq!(field_names(&h, o), vec!["a".to_string(), "b".to_string()]);
    assert_eq!(set_index(o, Value::Int(0), Value::Int(2), &mut h), Ok(()));
    let k0 = string(&mut h, "0");
    assert_eq!(get_index(o, k0, &mut h), Ok(Value::Int(2)));
    let empty = string(&mut h, "");
    assert_eq!(set_index(o, empty, Value::Null, &mut h), Ok(()));
    assert_eq!(field_names(&h, o), vec!["a".to_string(), "b".to_string(), "0".to_string(), "".to_string()]);
    assert_eq!(set_index(o, Value::Float(0), Value::Int(2), &mut h), Err(VmError::Deferred));
}

#[test]
fn strings_tuples_buffers_ranges_read() {
    let mut h = Heap::new();
    let s = string(&mut h, "héllo");
    let c = get_index(s, Value::Int(1), &mut h).unwrap();
    assert_eq!(text_of(&h, c), "é");
    let t = h.allocate(HeapObj::Tuple(vec![Value::Int(7)]));
    assert_eq!(get_index(t, Value::Int(0), &mut h), Ok(Value::Int(7)));
    assert_eq!(
        set_index(t, Value::Int(0), Value::Int(1), &mut h),
        Err(VmError::Runtime(RuntimeError::NotIndexable { write: true }))
    );
    let b = h.allocate(HeapObj::Buffer(vec![10, 20]));
    assert_eq!(get_index(b, Value::Int(1), &mut h), Ok(Value::Int(20)));
    assert_eq!(set_index(b, Value::Int(1), Value::Int(300), &mut h), Ok(()));
    assert_eq!(get_index(b, Value::Int(1), &mut h), Ok(Value::Int(44)));
    let r = h.allocate(HeapObj::Range(RangeData { start: 10, end: 0, step: -3, inclusive: false }));
    assert_eq!(get_index(r, Value::Int(3), &mut h), Ok(Value::Int(1)));
    assert_eq!(get_index(r, Value::Int(4), &mut h), Ok(Value::Null));
    assert_eq!(
        get_index(Value::Int(3), Value::Int(0), &mut h),
        Err(VmError::Runtime(RuntimeError::NotIndexable { write: false }))
    );
}

#[test]
fn push_pop_length_extend() {
    let mut h = Heap::new();
    let a = array(&mut h, vec![]);
    assert_eq!(array_pop(a, &mut h), Ok(Value::Null));
    assert_eq!(array_push(a, Value::Int(1), &mut h), Ok(()));
    assert_eq!(array_push(a, Value::Int(2), &mut h), Ok(()));
    assert_eq!(array_length(a, &h), Ok(Value::Int(2)));
    assert_eq!(array_pop(a, &mut h), Ok(Value::Int(2)));
    assert_eq!(elems(&h, a), vec![Value::Int(1)]);
    let b = array(&mut h, vec![Value::Int(5), Value::Int(6)]);
    assert_eq!(array_extend(a, b, &mut h), Ok(()));
    assert_eq!(elems(&h, a), vec![Value::Int(1), Value::Int(5), Value::Int(6)]);
    let s = string(&mut h, "abc");
    assert_eq!(array_length(s, &h), Ok(Value::Int(3)));
    assert_eq!(
        array_push(s, Value::Int(1), &mut h),
        Err(VmError::Runtime(RuntimeError::NotAnArray { array_op: ArrayOp::Push }))
    );
    assert_eq!(
        array_pop(Value::Null, &mut h),
        Err(VmError::Runtime(RuntimeError::NotAnArray { array_op: ArrayOp::Pop }))
    );
    assert_eq!(
        array_length(Value::Int(1), &h),
        Err(VmError::Runtime(RuntimeError::NotAnArray { array_op: ArrayOp::Length }))
    );
    assert_eq!(array_extend(a, s, &mut h), Err(VmError::Runtime(RuntimeError::NotArrays)));
}

#[test]
fn keys_rest_and_merge() {
    let mut h = Heap::new();
    let o = object(&mut h, vec![("x", Value::Int(1)), ("y", Value::Int(2)), ("z", Value::Int(3))]);
    let keys = object_keys(o, &mut h).unwrap();
    let ks: Vec<String> = elems(&h, keys).into_iter().map(|k| text_of(&h, k)).collect();
    assert_eq!(ks, vec!["x", "y", "z"]);
    let rest = object_rest(o, &vec!["y".chars().collect()], &mut h).unwrap();
    assert_eq!(field_names(&h, rest), vec!["x".to_string(), "z".to_string()]);
    let p = object(&mut h, vec![("z", Value::Int(9)), ("w", Value::Int(4))]);
    assert_eq!(object_merge(o, p, &mut h), Ok(o));
    assert_eq!(field_names(&h, o), vec!["x", "y", "z", "w"]);
    let kz = string(&mut h, "z");
    assert_eq!(get_index(o, kz, &mut h), Ok(Value::Int(9)));
    assert_eq!(
        object_keys(Value::Int(1), &mut h),
        Err(VmError::Runtime(RuntimeError::NotAnObject { object_op: ObjectOp::Keys }))
    );
    assert_eq!(
        object_rest(Value::Null, &vec![], &mut h),
        Err(VmError::Runtime(RuntimeError::NotAnObject { object_op: ObjectOp::Rest }))
    );
}

#[test]
fn membership_and_type_tests() {
    let mut h = Heap::new();
    let a = array(&mut h, vec![Value::Int(1), Value::Int(2)]);
    let o = object(&mut h, vec![("k", Value::Null), ("7", Value::Null)]);
    let k = string(&mut h, "k");
    let one = string(&mut h, "1");
    let plus_one = string(&mut h, "+1");
    let minus_one = string(&mut h, "-1");
    assert_eq!(op_in(k, o, &h), Ok(true));
    assert_eq!(op_in(Value::Int(7), o, &h), Ok(true));
    assert_eq!(op_in(one, o, &h), Ok(false));
    assert_eq!(op_in(Value::Int(1), a, &h), Ok(true));
    assert_eq!(op_in(Value::Int(2), a, &h), Ok(false));
    assert_eq!(op_in(Value::Int(-1), a, &h), Ok(false));
    assert_eq!(op_in(one, a, &h), Ok(true));
    assert_eq!(op_in(plus_one, a, &h), Ok(true));
    assert_eq!(op_in(minus_one, a, &h), Ok(false));
    assert_eq!(op_in(k, Value::Int(3), &h), Ok(false));
    assert_eq!(op_in(Value::Bool(true), o, &h), Ok(false));
    assert_eq!(op_in(Value::Float(0), o, &h), Err(VmError::Deferred));
    assert!(is_array(a, &h));
    assert!(!is_array(o, &h));
    assert_eq!(parse_usize(&"0042".chars().collect()), Some(42));
    assert_eq!(parse_usize(&"+".chars().collect()), None);
    assert_eq!(parse_usize(&"".chars().collect()), None);
    assert_eq!(parse_usize(&"99999999999999999999999".chars().collect()), None);
}

#[test]
fn null_assertion_and_enum_tags() {
    let mut h = Heap::new();
    assert_eq!(assert_not_null(Value::Null), Err(RuntimeError::NullAssertion));
    assert_eq!(assert_not_null(Value::Int(0)), Ok(()));
    let e = h.allocate(HeapObj::EnumVariant(VariantData {
        enum_name: "Color".chars().collect(),
        tag: 2,
        payload: Value::Null,
        class_id: None,
        fields: vec![],
    }));
    assert_eq!(get_enum_tag(e, &h), Ok(Value::Int(2)));
    let wide = h.allocate(HeapObj::EnumVariant(VariantData {
        enum_name: "Big".chars().collect(),
        tag: (1i64 << 32) + 5,
        payload: Value::Null,
        class_id: None,
        fields: vec![],
    }));
    assert_eq!(get_enum_tag(wide, &h), Ok(Value::Int(5)));
    assert_eq!(get_enum_tag(Value::Int(2), &h), Err(RuntimeError::NotEnumVariant));
}

#[test]
fn typeof_names_each_kind() {
    let mut heap = Heap::new();
    let s = string(&mut heap, "x");
    let a = array(&mut heap, vec![]);
    let o = object(&mut heap, vec![]);
    assert_eq!(typeof_val(Value::Null, &heap), RuntimeKind::Null);
    assert_eq!(typeof_val(Value::Bool(true), &heap), RuntimeKind::Bool);
    assert_eq!(typeof_val(Value::Int(3), &heap), RuntimeKind::Int);
    assert_eq!(typeof_val(Value::Float(0), &heap), RuntimeKind::Float);
    assert_eq!(typeof_val(s, &heap), RuntimeKind::Str);
    assert_eq!(typeof_val(a, &heap), RuntimeKind::Array);
    assert_eq!(typeof_val(o, &heap), RuntimeKind::Object);
    assert_eq!(typeof_val(Value::Obj(99), &heap), RuntimeKind::Object);
}

#[test]
fn spreading_an_instance_sets_its_fields() {
    let mut h = varn_vm::heap::Heap::new();
    let t = h.allocate(varn_vm::heap::HeapObj::Object(vec![varn_vm::heap::Field {
        key: "a".chars().collect(),
        value: varn_vm::value::Value::Int(1),
    }]));
    let i = h.allocate(varn_vm::heap::HeapObj::Instance(varn_vm::heap::InstanceData {
        class: 0,
        fields: vec![
            varn_vm::heap::Field { key: "b".chars().collect(), value: varn_vm::value::Value::Int(2) },
            varn_vm::heap::Field { key: "a".chars().collect(), value: varn_vm::value::Value::Int(3) },
        ],
    }));
    assert_eq!(varn_vm::collections::object_merge(t, i, &mut h), Ok(t));
    match h.get(0) {
        Some(varn_vm::heap::HeapObj::Object(fs)) => {
            let got: Vec<(String, varn_vm::value::Value)> =
                fs.iter().map(|f| (f.key.iter().collect(), f.value)).collect();
            assert_eq!(
                got,
                vec![("a".to_string(), varn_vm::value::Value::Int(3)), ("b".to_string(), varn_vm::value::Value::Int(2))]
            );
        }
        _ => panic!("target is not an object"),
    }
}

fn entry(key: varn_vm::value::Value, value: varn_vm::value::Value) -> varn_vm::heap::MapEntry {
    varn_vm::heap::MapEntry { key, value }
}

#[test]
fn maps_take_rest_keys_and_spread() {
    let mut h = varn_vm::heap::Heap::new();
    let ka = h.allocate(varn_vm::heap::HeapObj::Str("a".chars().collect()));
    let m = h.allocate(varn_vm::heap::HeapObj::ValueMap(vec![
        entry(ka, varn_vm::value::Value::Int(1)),
        entry(varn_vm::value::Value::Int(7), varn_vm::value::Value::Int(2)),
        entry(varn_vm::value::Value::Bool(true), varn_vm::value::Value::Int(3)),
    ]));
    let ex: Vec<Vec<char>> = vec!["7".chars().collect(), "b".chars().collect()];
    let rest = varn_vm::collections::object_rest(m, &ex, &mut h).unwrap();
    match h.get(2) {
        Some(varn_vm::heap::HeapObj::ValueMap(es)) => {
            assert_eq!(rest, varn_vm::value::Value::Obj(2));
            assert_eq!(
                es,
                &vec![entry(ka, varn_vm::value::Value::Int(1)), entry(varn_vm::value::Value::Bool(true), varn_vm::value::Value::Int(3))]
            );
        }
        _ => panic!("no map"),
    }
    let keys = varn_vm::collections::object_keys(m, &mut h).unwrap();
    match keys {
        varn_vm::value::Value::Obj(i) => match h.get(i) {
            Some(varn_vm::heap::HeapObj::Array(a)) => {
                assert_eq!(a, &vec![ka, varn_vm::value::Value::Int(7), varn_vm::value::Value::Bool(true)])
            }
            _ => panic!("no array"),
        },
        _ => panic!("not a reference"),
    }
    let t = h.allocate(varn_vm::heap::HeapObj::Object(vec![]));
    assert_eq!(varn_vm::collections::object_merge(t, m, &mut h), Ok(t));
    match h.get(4) {
        Some(varn_vm::heap::HeapObj::Object(fs)) => {
            let got: Vec<(String, varn_vm::value::Value)> =
                fs.iter().map(|f| (f.key.iter().collect(), f.value)).collect();
            assert_eq!(
                got,
                vec![
                    ("a".to_string(), varn_vm::value::Value::Int(1)),
                    ("7".to_string(), varn_vm::value::Value::Int(2)),
                    ("true".to_string(), varn_vm::value::Value::Int(3)),
                ]
            );
        }
        _ => panic!("target is not an object"),
    }
    let fm = h.allocate(varn_vm::heap::HeapObj::ValueMap(vec![entry(
        varn_vm::value::Value::Float(1.5f64.to_bits()),
        varn_vm::value::Value::Null,
    )]));
    assert_eq!(varn_vm::collections::object_merge(t, fm, &mut h), Err(varn_vm::error::VmError::Deferred));
    assert_eq!(varn_vm::collections::object_rest(fm, &ex, &mut h), Err(varn_vm::error::VmError::Deferred));
    assert_eq!(varn_vm::advanced::typeof_val(m, &h), varn_vm::advanced::RuntimeKind::MapKind);
}
