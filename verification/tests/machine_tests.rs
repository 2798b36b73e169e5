use varn_vm::calls::{
    bundle_rest_args, materialize_frame, resolve_constructor_return, stage_window, IcSite, JitFrameOutcome, UpvalueSrc,
};
use varn_vm::classes::{
    class_member_op, op_class, op_define_getter, op_define_static, op_get_super, op_inherit, op_method,
    ClassData, JitClassMemberArgs,
};
use varn_vm::control::{jump, jump_if_false, jump_if_true, loop_back};
use varn_vm::dispatch::{
    exec_branch_op, exec_collection_op, exec_load_op, exec_math_compare_op, hi, lo, step, BranchOp, CollectionOp,
    Flow, Frame, Instr, LoadOp, MathOp,
};
use varn_vm::error::{IntOp, ObjectOp as ErrObjectOp, RuntimeError, VmError};
use varn_vm::objects::{build_object, build_shaped, exec_object_op, object_rest_op, ObjectOp};
use varn_vm::heap::{Field, Heap, HeapObj, VariantData};
use varn_vm::value::Value;

fn chars(s: &str) -> Vec<char> {
    s.chars().collect()
}

fn class_of(heap: &Heap, v: Value) -> &ClassData {
    match v {
        Value::Obj(i) => match heap.get(i) {
            Some(HeapObj::Class(c)) => c,
            _ => panic!("not a class"),
        },
        _ => panic!("not a reference"),
    }
}

fn member(fs: &[Field], name: &str) -> Option<Value> {
    fs.iter().find(|f| f.key.iter().collect::<String>() == name).map(|f| f.value)
}

#[test]
fn jumps_and_loops() {
    let mut ip = 10usize;
    jump(&mut ip, 5);
    assert_eq!(ip, 15);
    assert_eq!(loop_back(&mut ip, 5), Ok(()));
    assert_eq!(ip, 10);
    assert_eq!(loop_back(&mut ip, 11), Err(RuntimeError::LoopNegativeIp));
    assert_eq!(ip, 10);
    for cond in [Value::Null, Value::Int(0), Value::Int(1), Value::Bool(true)] {
        let (mut a, mut b) = (3usize, 3usize);
        jump_if_false(&mut a, 4, cond);
        jump_if_true(&mut b, 4, cond);
        assert!((a == 3) != (b == 3));
        assert_eq!(a + b, 10);
    }
}

#[test]
fn operand_bytes() {
    assert_eq!(hi(0x1234), 0x12);
    assert_eq!(lo(0x1234), 0x34);
    assert_eq!(hi(0xFF), 0);
    assert_eq!(UpvalueSrc::from_bytecode(0x0103), UpvalueSrc::Local(3));
    assert_eq!(UpvalueSrc::from_bytecode(0x0007), UpvalueSrc::Inherited(7));
}

#[test]
fn math_instructions_on_registers() {
    let mut h = Heap::new();
    let mut regs = vec![Value::Null, Value::Int(6), Value::Int(7), Value::Null];
    let code: Vec<u16> = vec![0x0102, 0x01FE, 0x0102];
    let mut ip = 0usize;
    // r3 = r1 * r2
    assert_eq!(exec_math_compare_op(MathOp::Mul, &code, &mut ip, &mut regs, 0, 3, &mut h), Ok(()));
    assert_eq!((ip, regs[3]), (1, Value::Int(42)));
    // r0 = r1 + (-2)
    assert_eq!(exec_math_compare_op(MathOp::AddImm, &code, &mut ip, &mut regs, 0, 0, &mut h), Ok(()));
    assert_eq!(regs[0], Value::Int(4));
    // r0 = r1 < r2
    assert_eq!(exec_math_compare_op(MathOp::LtInt, &code, &mut ip, &mut regs, 0, 0, &mut h), Ok(()));
    assert_eq!(regs[0], Value::Bool(true));
    let mut ip = 0usize;
    regs[2] = Value::Int(0);
    assert_eq!(
        exec_math_compare_op(MathOp::DivInt, &code, &mut ip, &mut regs, 0, 0, &mut h),
        Err(VmError::Runtime(RuntimeError::DivisionByZero { modulo: false }))
    );
    assert_eq!(regs[0], Value::Bool(true));
    regs[1] = Value::Int(7);
    regs[2] = Value::Int(2);
    let mut ip = 0usize;
    assert_eq!(exec_math_compare_op(MathOp::DivInt, &code, &mut ip, &mut regs, 0, 0, &mut h), Ok(()));
    assert_eq!(regs[0], Value::Int(3));
    regs[1] = Value::Int(i64::MIN);
    regs[2] = Value::Int(-1);
    let mut ip = 0usize;
    assert_eq!(
        exec_math_compare_op(MathOp::DivInt, &code, &mut ip, &mut regs, 0, 0, &mut h),
        Err(VmError::Runtime(RuntimeError::IntegerOverflow { op: IntOp::Div, lhs: i64::MIN, rhs: -1 }))
    );
    regs[1] = Value::Int(i64::MAX);
    regs[2] = Value::Int(1);
    let mut ip = 0usize;
    assert_eq!(
        exec_math_compare_op(MathOp::AddInt, &code, &mut ip, &mut regs, 0, 0, &mut h),
        Err(VmError::Runtime(RuntimeError::IntegerOverflow { op: IntOp::Add, lhs: i64::MAX, rhs: 1 }))
    );
    let mut ip = 0usize;
    assert_eq!(
        exec_math_compare_op(MathOp::ModFloat, &code, &mut ip, &mut regs, 0, 0, &mut h),
        Err(VmError::Deferred)
    );
    regs[2] = Value::Float((-0.0f64).to_bits());
    let mut ip = 0usize;
    assert_eq!(
        exec_math_compare_op(MathOp::ModFloat, &code, &mut ip, &mut regs, 0, 0, &mut h),
        Err(VmError::Runtime(RuntimeError::DivisionByZero { modulo: true }))
    );
}

#[test]
fn collection_instructions_on_registers() {
    let mut h = Heap::new();
    let mut regs = vec![Value::Int(1), Value::Int(2), Value::Int(3), Value::Null, Value::Null];
    // r3 = [r0, r1, r2]
    let code: Vec<u16> = vec![0x0300, 0x0300, 0x0300, 0x0100];
    let mut ip = 0usize;
    assert_eq!(exec_collection_op(CollectionOp::BuildArray, &code, &mut ip, &mut regs, 0, 0, &mut h), Ok(()));
    assert_eq!((ip, regs[3]), (2, Value::Obj(0)));
    // r4 = length of r3
    assert_eq!(exec_collection_op(CollectionOp::ArrayLength, &code, &mut ip, &mut regs, 0, 4, &mut h), Ok(()));
    assert_eq!(regs[4], Value::Int(3));
    // r4 = r3[r1]
    let mut ip = 3usize;
    let code2: Vec<u16> = vec![0, 0, 0, 0x0301];
    assert_eq!(exec_collection_op(CollectionOp::GetIndex, &code2, &mut ip, &mut regs, 0, 4, &mut h), Ok(()));
    assert_eq!(regs[4], Value::Int(3));
    let mut ip = 0usize;
    let code3: Vec<u16> = vec![0x0000];
    regs[0] = Value::Null;
    assert_eq!(
        exec_collection_op(CollectionOp::AssertNotNull, &code3, &mut ip, &mut regs, 0, 0, &mut h),
        Err(VmError::Runtime(RuntimeError::NullAssertion))
    );
    let mut ip = 0usize;
    assert_eq!(exec_collection_op(CollectionOp::IsNull, &code3, &mut ip, &mut regs, 0, 1, &mut h), Ok(()));
    assert_eq!(regs[1], Value::Bool(true));
}

#[test]
fn branch_instructions() {
    let regs = vec![Value::Bool(false)];
    let code: Vec<u16> = vec![0x0000, 0x0010, 0x0001, 0x0000, 0x0000];
    let mut ip = 0usize;
    assert_eq!(exec_branch_op(BranchOp::Jump, &code, &mut ip, &regs, 0, 0), Flow::Continue);
    assert_eq!(ip, 0x12);
    let mut ip = 0usize;
    assert_eq!(exec_branch_op(BranchOp::JumpIfTrue, &code, &mut ip, &regs, 0, 0), Flow::Continue);
    assert_eq!(ip, 2);
    let mut ip = 0usize;
    assert_eq!(exec_branch_op(BranchOp::JumpIfFalse, &code, &mut ip, &regs, 0, 0), Flow::Continue);
    assert_eq!(ip, 0x12);
    let mut ip = 2usize;
    let back: Vec<u16> = vec![0, 0, 0x0000, 0x0003];
    assert_eq!(exec_branch_op(BranchOp::Loop, &back, &mut ip, &regs, 0, 0), Flow::BackEdge);
    assert_eq!(ip, 1);
    let mut ip = 4usize;
    assert_eq!(exec_branch_op(BranchOp::Return, &code, &mut ip, &regs, 0, 0), Flow::Return(Value::Bool(false)));
    // A 32-bit offset spans both code units.
    let far: Vec<u16> = vec![0x0001, 0x0000];
    let mut ip = 0usize;
    exec_branch_op(BranchOp::Jump, &far, &mut ip, &regs, 0, 0);
    assert_eq!(ip, 0x10002);
}

#[test]
fn load_instructions() {
    let mut regs = vec![Value::Null, Value::Int(5)];
    let consts = vec![Value::Int(100)];
    let mut globals = vec![Value::Int(0), Value::Int(11)];
    let code: Vec<u16> = vec![0xFFFE, 0x0000, 0x0100, 0x0001];
    let mut ip = 0usize;
    exec_load_op(LoadOp::LoadInt, &code, &mut ip, &mut regs, 0, 0, &consts, &mut globals, 0);
    assert_eq!((ip, regs[0]), (1, Value::Int(-2)));
    exec_load_op(LoadOp::LoadConst, &code, &mut ip, &mut regs, 0, 0, &consts, &mut globals, 0);
    assert_eq!(regs[0], Value::Int(100));
    exec_load_op(LoadOp::Move, &code, &mut ip, &mut regs, 0, 0, &consts, &mut globals, 0);
    assert_eq!(regs[0], Value::Int(5));
    let mut ip = 2usize;
    exec_load_op(LoadOp::StoreGlobalIdx, &code, &mut ip, &mut regs, 0, 0, &consts, &mut globals, 0);
    assert_eq!((ip, globals[1]), (4, Value::Int(5)));
    let mut ip = 3usize;
    exec_load_op(LoadOp::LoadGlobalIdx, &code, &mut ip, &mut regs, 0, 1, &consts, &mut globals, 0);
    assert_eq!(regs[1], Value::Int(5));
    let mut ip = 0usize;
    exec_load_op(LoadOp::LoadIntMinusOne, &code, &mut ip, &mut regs, 0, 1, &consts, &mut globals, 0);
    assert_eq!((ip, regs[1]), (0, Value::Int(-1)));
}

#[test]
fn call_windows_and_frames() {
    let staging = vec![Value::Int(1), Value::Int(2), Value::Int(3)];
    assert_eq!(stage_window(&staging, 2), vec![Value::Int(2), Value::Int(3)]);
    assert_eq!(stage_window(&staging, 5), staging);
    let mut regs = vec![Value::Bool(true)];
    let window = vec![Value::Int(9), Value::Int(8), Value::Int(7)];
    let base = materialize_frame(&mut regs, 2, 4, &window);
    assert_eq!(base, 1);
    assert_eq!(regs, vec![Value::Bool(true), Value::Int(9), Value::Int(8), Value::Null, Value::Null]);
    let base = materialize_frame(&mut regs, 3, 1, &window);
    assert_eq!((base, regs.len(), regs[5]), (5, 6, Value::Int(9)));
}

#[test]
fn call_sites_and_frame_outcomes() {
    let mega = vec![false, true];
    assert!(IcSite::of(&mega, 4, 0).usable());
    assert!(!IcSite::of(&mega, 4, 1).usable());
    assert!(IcSite::of(&mega, 4, 3).usable());
    assert!(!IcSite::of(&mega, 4, 4).usable());
    assert_eq!(JitFrameOutcome::Continue.into_result(), None);
    assert_eq!(JitFrameOutcome::Done(Value::Int(1)).into_result(), Some(Ok(Value::Int(1))));
    assert_eq!(
        JitFrameOutcome::Failed(RuntimeError::NullAssertion).into_result(),
        Some(Err(RuntimeError::NullAssertion))
    );
}

#[test]
fn classes_members_and_super() {
    let mut h = Heap::new();
    let base = op_class(&chars("Base"), &mut h);
    let sub = op_class(&chars("Sub"), &mut h);
    let name = chars("greet");
    assert_eq!(op_method(base, &name, Value::Int(11), &mut h), Ok(()));
    assert_eq!(op_method(base, &name, Value::Int(12), &mut h), Ok(()));
    assert_eq!(member(&class_of(&h, base).methods, "greet"), Some(Value::Int(12)));
    assert_eq!(class_of(&h, base).methods.len(), 1);
    assert_eq!(op_define_getter(base, &chars("size"), Value::Int(3), &mut h), Ok(()));
    assert_eq!(op_inherit(sub, base, &mut h), Ok(()));
    assert_eq!(member(&class_of(&h, sub).getters, "size"), Some(Value::Int(3)));
    let bound = op_get_super(sub, &name, Value::Int(99), &mut h).unwrap();
    match bound {
        Value::Obj(i) => match h.get(i) {
            Some(HeapObj::BoundMethod(b)) => {
                assert_eq!((b.receiver, b.method), (Value::Int(99), Value::Int(12)));
            }
            _ => panic!("not a bound method"),
        },
        _ => panic!("not a reference"),
    }
    assert_eq!(op_get_super(base, &name, Value::Null, &mut h), Err(RuntimeError::NoSuperclass));
    assert_eq!(op_get_super(sub, &chars("nope"), Value::Null, &mut h), Err(RuntimeError::MethodNotFound));
    assert_eq!(op_method(Value::Int(1), &name, Value::Null, &mut h), Err(RuntimeError::ExpectedClass));
    assert_eq!(op_inherit(Value::Int(1), base, &mut h), Err(RuntimeError::NotAClass));
    assert_eq!(op_inherit(sub, Value::Null, &mut h), Err(RuntimeError::ExpectedClass));
}

#[test]
fn statics_and_jit_member_kinds() {
    let mut h = Heap::new();
    let cls = op_class(&chars("Color"), &mut h);
    let red = h.allocate(HeapObj::EnumVariant(VariantData {
        enum_name: chars("Color"),
        tag: 0,
        payload: Value::Null,
        class_id: None,
        fields: vec![],
    }));
    assert_eq!(op_define_static(cls, &chars("Red"), red, &mut h), Ok(()));
    let stored = member(&class_of(&h, cls).statics, "Red").unwrap();
    assert_ne!(stored, red);
    match stored {
        Value::Obj(i) => match h.get(i) {
            Some(HeapObj::EnumVariant(e)) => assert_eq!((e.tag, e.class_id), (0, Some(0))),
            _ => panic!("not an enum value"),
        },
        _ => panic!("not a reference"),
    }
    let args = JitClassMemberArgs { class_val: cls, fn_val: Value::Int(5), name_idx: 0, kind: 3 };
    assert_eq!(class_member_op(args, &chars("w"), &mut h), Ok(()));
    assert_eq!(member(&class_of(&h, cls).setters, "w"), Some(Value::Int(5)));
    let args = JitClassMemberArgs { class_val: cls, fn_val: Value::Int(6), name_idx: 0, kind: 1 };
    assert_eq!(class_member_op(args, &chars("K"), &mut h), Ok(()));
    assert_eq!(member(&class_of(&h, cls).statics, "K"), Some(Value::Int(6)));
}

#[test]
fn rest_arguments_are_bundled() {
    let mut h = Heap::new();
    // f(a, ...rest) has two registers; three arguments give a and [b, c].
    let mut staging = vec![Value::Null, Value::Int(1), Value::Int(2), Value::Int(3)];
    let mut count = 3usize;
    bundle_rest_args(2, true, &mut count, &mut staging, &mut h);
    assert_eq!(count, 2);
    assert_eq!(staging, vec![Value::Null, Value::Int(1), Value::Obj(0)]);
    match h.get(0) {
        Some(HeapObj::Array(a)) => assert_eq!(a, &vec![Value::Int(2), Value::Int(3)]),
        _ => panic!("no rest array"),
    }
    // Too few arguments: nulls, then an empty rest array.
    let mut staging = vec![Value::Null];
    let mut count = 0usize;
    bundle_rest_args(3, true, &mut count, &mut staging, &mut h);
    assert_eq!(count, 3);
    assert_eq!(staging, vec![Value::Null, Value::Null, Value::Null, Value::Obj(1)]);
    // No rest parameter: missing arguments become nulls.
    let mut staging = vec![Value::Int(7)];
    let mut count = 1usize;
    bundle_rest_args(3, false, &mut count, &mut staging, &mut h);
    assert_eq!((count, staging.len()), (3, 3));
    let mut count = 3usize;
    bundle_rest_args(2, false, &mut count, &mut staging, &mut h);
    assert_eq!((count, staging.len()), (3, 3));
}

#[test]
fn interpreter_steps() {
    let mut table: Vec<Option<Instr>> = vec![None; 8];
    table[1] = Some(Instr::Load(LoadOp::LoadInt));
    table[2] = Some(Instr::Math(MathOp::Add));
    table[3] = Some(Instr::Branch(BranchOp::Return));
    // r0 = 20; r1 = 22; r2 = r0 + r1; return r2
    let code: Vec<u16> = vec![0x0001, 20, 0x0101, 22, 0x0202, 0x0001, 0x0003, 0x0002];
    let mut f = Frame {
        regs: vec![Value::Null; 3],
        base: 0,
        globals: vec![],
        module_base: 0,
        consts: vec![],
        shapes: vec![],
        heap: Heap::new(),
    };
    let mut ip = 0usize;
    assert_eq!(step(&table, &code, &mut ip, &mut f), Ok(Flow::Continue));
    assert_eq!(step(&table, &code, &mut ip, &mut f), Ok(Flow::Continue));
    assert_eq!(step(&table, &code, &mut ip, &mut f), Ok(Flow::Continue));
    assert_eq!(f.regs[2], Value::Int(42));
    assert_eq!(step(&table, &code, &mut ip, &mut f), Ok(Flow::Return(Value::Int(42))));
    let mut ip = code.len();
    assert_eq!(step(&table, &code, &mut ip, &mut f), Ok(Flow::Return(Value::Int(20))));
    let bad: Vec<u16> = vec![0x0007];
    let mut ip = 0usize;
    assert_eq!(
        step(&table, &bad, &mut ip, &mut f),
        Err(VmError::Runtime(RuntimeError::UnknownOpcode { byte: 7 }))
    );
}

fn fields_of(heap: &Heap, v: Value) -> Vec<(String, Value)> {
    match v {
        Value::Obj(i) => match heap.get(i) {
            Some(HeapObj::Object(fs)) | Some(HeapObj::Record(fs)) => {
                fs.iter().map(|f| (f.key.iter().collect::<String>(), f.value)).collect()
            }
            _ => panic!("not an object"),
        },
        _ => panic!("not a reference"),
    }
}

#[test]
fn object_literal_sets_fields_in_order() {
    let mut heap = Heap::new();
    let a = heap.allocate(HeapObj::Str(chars("a")));
    let b = heap.allocate(HeapObj::Str(chars("b")));
    let consts = vec![a, b, Value::Int(7)];
    // r3 = { a: r0, b: r1, a: r2, "": r0 }
    let code: Vec<u16> = vec![0x0304, 0, 0x0000, 1, 0x0100, 0, 0x0200, 2, 0x0000];
    let mut regs = vec![Value::Int(1), Value::Int(2), Value::Int(3), Value::Null];
    let mut ip = 0usize;
    build_object(&code, &mut ip, &mut regs, 0, &consts, &mut heap);
    assert_eq!(ip, 9);
    assert_eq!(regs[3], Value::Obj(2));
    assert_eq!(
        fields_of(&heap, regs[3]),
        vec![("a".to_string(), Value::Int(3)), ("b".to_string(), Value::Int(2)), ("".to_string(), Value::Int(1))]
    );
}

#[test]
fn shaped_object_and_record() {
    let mut heap = Heap::new();
    let shapes = vec![vec![chars("x"), chars("y")]];
    let mut regs = vec![Value::Null, Value::Int(10), Value::Int(20)];
    // r0 = { x: r1, y: r2 } with shape 0
    let code: Vec<u16> = vec![0x0001, 0];
    let mut ip = 0usize;
    build_shaped(&code, &mut ip, &mut regs, 0, &shapes, false, &mut heap);
    assert_eq!(ip, 2);
    assert_eq!(fields_of(&heap, regs[0]), vec![("x".to_string(), Value::Int(10)), ("y".to_string(), Value::Int(20))]);
    let mut ip = 0usize;
    build_shaped(&code, &mut ip, &mut regs, 0, &shapes, true, &mut heap);
    assert!(matches!(heap.get(1), Some(HeapObj::Record(_))));
    assert_eq!(regs[0], Value::Obj(1));
}

#[test]
fn rest_pattern_leaves_out_named_keys() {
    let mut heap = Heap::new();
    let a = heap.allocate(HeapObj::Str(chars("a")));
    let obj = heap.allocate(HeapObj::Object(vec![
        Field { key: chars("a"), value: Value::Int(1) },
        Field { key: chars("b"), value: Value::Int(2) },
    ]));
    let consts = vec![a];
    let mut regs = vec![obj, Value::Null];
    // r1 = { ...rest } of r0 without "a"
    let code: Vec<u16> = vec![0x0100, 0x0100, 0];
    let mut ip = 0usize;
    assert_eq!(object_rest_op(&code, &mut ip, &mut regs, 0, &consts, &mut heap), Ok(()));
    assert_eq!(ip, 3);
    assert_eq!(fields_of(&heap, regs[1]), vec![("b".to_string(), Value::Int(2))]);
    let mut regs = vec![Value::Int(5), Value::Null];
    let mut ip = 0usize;
    assert_eq!(
        object_rest_op(&code, &mut ip, &mut regs, 0, &consts, &mut heap),
        Err(VmError::Runtime(RuntimeError::NotAnObject { object_op: ErrObjectOp::Rest }))
    );
    assert_eq!(regs[1], Value::Null);
}

#[test]
fn interpreter_builds_objects() {
    let mut table: Vec<Option<Instr>> = vec![None; 4];
    table[1] = Some(Instr::Object(ObjectOp::BuildObjectWithShape));
    table[2] = Some(Instr::Branch(BranchOp::Return));
    let mut f = Frame {
        regs: vec![Value::Null, Value::Bool(true)],
        base: 0,
        globals: vec![],
        module_base: 0,
        consts: vec![],
        shapes: vec![vec![chars("ok")]],
        heap: Heap::new(),
    };
    let code: Vec<u16> = vec![0x0001, 0x0001, 0, 0x0002];
    let mut ip = 0usize;
    assert_eq!(step(&table, &code, &mut ip, &mut f), Ok(Flow::Continue));
    assert_eq!(ip, 3);
    assert_eq!(fields_of(&f.heap, f.regs[0]), vec![("ok".to_string(), Value::Bool(true))]);
    let mut regs = vec![Value::Null];
    let mut ip = 0usize;
    let empty: Vec<u16> = vec![0x0000];
    assert_eq!(exec_object_op(ObjectOp::BuildObject, &empty, &mut ip, &mut regs, 0, &vec![], &vec![], &mut f.heap), Ok(()));
    assert_eq!(fields_of(&f.heap, regs[0]), vec![]);
}

#[test]
fn constructor_return_takes_latest_pending_entry() {
    let mut pending = vec![(2usize, Value::Obj(10)), (5, Value::Obj(11)), (2, Value::Obj(12))];
    assert_eq!(resolve_constructor_return(&mut pending, 2, Value::Null), Value::Obj(12));
    assert_eq!(pending, vec![(2usize, Value::Obj(10)), (5, Value::Obj(11))]);
    assert_eq!(resolve_constructor_return(&mut pending, 5, Value::Int(3)), Value::Int(3));
    assert_eq!(pending, vec![(2usize, Value::Obj(10))]);
    assert_eq!(resolve_constructor_return(&mut pending, 9, Value::Null), Value::Null);
    assert_eq!(pending, vec![(2usize, Value::Obj(10))]);
}

#[test]
fn instructions_keep_heap_references() {
    let mut table: Vec<Option<Instr>> = vec![None; 4];
    table[1] = Some(Instr::Collection(CollectionOp::ArrayPop));
    table[2] = Some(Instr::Collection(CollectionOp::BuildArray));
    let mut heap = Heap::new();
    let arr = heap.allocate(HeapObj::Array(vec![Value::Int(1)]));
    let mut f = Frame {
        regs: vec![arr, Value::Null, Value::Int(9)],
        base: 0,
        globals: vec![],
        module_base: 0,
        consts: vec![],
        shapes: vec![],
        heap,
    };
    // r1 = r0.pop(); r0 = [r2]
    let code: Vec<u16> = vec![0x0101, 0x0000, 0x0002, 0x0002, 0x0100];
    let mut ip = 0usize;
    let before = f.heap.len();
    assert_eq!(step(&table, &code, &mut ip, &mut f), Ok(Flow::Continue));
    assert_eq!(f.regs[1], Value::Int(1));
    assert!(f.heap.len() >= before);
    let before = f.heap.len();
    assert_eq!(step(&table, &code, &mut ip, &mut f), Ok(Flow::Continue));
    assert_eq!(f.heap.len(), before + 1);
    assert!(matches!(f.heap.get(0), Some(HeapObj::Array(a)) if a.is_empty()));
}

use varn_vm::handlers::{deliver_error, pop_try, push_try, unwind_to_handler, Delivery, TryHandler};
use varn_vm::heap::ProtoInfo;
use varn_vm::prepare::{prepare_call, Prepared};

fn proto(arity: usize, has_rest: bool) -> ProtoInfo {
    ProtoInfo { arity, has_rest, is_generator: false, is_async: false, is_constructor: false, has_this: false }
}

#[test]
fn prepare_closure_and_native_calls() {
    let mut h = Heap::new();
    let f = h.allocate(HeapObj::Closure(proto(3, false)));
    let mut staging = vec![Value::Null, Value::Int(1)];
    match prepare_call(f, 2, &mut staging, &mut h).unwrap() {
        Prepared::Frame { closure, window, class } => {
            assert_eq!(closure, 0);
            assert_eq!(window, vec![Value::Null, Value::Int(1), Value::Null]);
            assert_eq!(class, None);
        }
        other => panic!("{other:?}"),
    }
    let g = h.allocate(HeapObj::Closure(ProtoInfo { is_generator: true, ..proto(2, false) }));
    let mut staging = vec![Value::Int(9), Value::Null, Value::Int(5)];
    match prepare_call(g, 2, &mut staging, &mut h).unwrap() {
        Prepared::Generator { closure, args, .. } => {
            assert_eq!(closure, 1);
            assert_eq!(args, vec![Value::Null, Value::Int(5)]);
        }
        other => panic!("{other:?}"),
    }
    assert_eq!(staging, vec![Value::Int(9)]);
    let n = h.allocate(HeapObj::NativeFn(7));
    let mut staging = vec![n, Value::Int(2)];
    assert!(matches!(prepare_call(n, 2, &mut staging, &mut h), Ok(Prepared::RawNative { func: 7, arg_count: 2 })));
    let mut staging = vec![];
    assert_eq!(prepare_call(Value::Null, 0, &mut staging, &mut h).unwrap_err(), RuntimeError::NullCallee);
    assert_eq!(prepare_call(Value::Int(3), 0, &mut staging, &mut h).unwrap_err(), RuntimeError::NotCallable { callee: Value::Int(3) });
}

#[test]
fn prepare_bound_method_class_and_variant_calls() {
    let mut h = Heap::new();
    let cls = op_class(&chars("P"), &mut h);
    let ctor = h.allocate(HeapObj::Closure(ProtoInfo { is_constructor: true, ..proto(2, false) }));
    assert_eq!(op_method(cls, &chars("constructor"), ctor, &mut h), Ok(()));
    let mut staging = vec![Value::Null, Value::Int(4)];
    match prepare_call(cls, 2, &mut staging, &mut h).unwrap() {
        Prepared::Constructor { closure, window, class, instance } => {
            assert_eq!(closure, 1);
            assert_eq!(instance, Value::Obj(2));
            assert_eq!(window, vec![Value::Obj(2), Value::Int(4)]);
            assert_eq!(class, Some(0));
        }
        other => panic!("{other:?}"),
    }
    assert!(matches!(h.get(2), Some(HeapObj::Instance(d)) if d.class == 0 && d.fields.is_empty()));
    let recv = Value::Int(11);
    let native = h.allocate(HeapObj::NativeFn(3));
    let bm = h.allocate(HeapObj::BoundMethod(varn_vm::classes::BoundData { receiver: recv, method: native, owner: 0 }));
    let mut staging = vec![bm, Value::Int(1)];
    assert!(matches!(prepare_call(bm, 2, &mut staging, &mut h), Ok(Prepared::BoundNative { func: 3, arg_count: 2 })));
    assert_eq!(staging, vec![recv, Value::Int(1)]);
    let some = h.allocate(HeapObj::EnumVariant(VariantData {
        enum_name: chars("Opt"),
        tag: 1,
        payload: Value::Null,
        class_id: None,
        fields: vec![chars("x"), chars("y")],
    }));
    let mut staging = vec![some, Value::Int(8)];
    let before = h.len();
    match prepare_call(some, 2, &mut staging, &mut h).unwrap() {
        Prepared::PushValue(v) => {
            assert_eq!(v, Value::Obj(before + 1));
            match h.get(before) {
                Some(HeapObj::Object(fs)) => {
                    assert_eq!(fs.len(), 2);
                    assert_eq!(fs[0].value, Value::Int(8));
                    assert_eq!(fs[1].value, Value::Null);
                }
                _ => panic!("no payload"),
            }
        }
        other => panic!("{other:?}"),
    }
    assert!(staging.is_empty());
}

#[test]
fn try_handlers_catch_errors_of_their_run() {
    let mut handlers: Vec<TryHandler> = vec![];
    // try: error into r2, catch block 4 units after the instruction
    let code: Vec<u16> = vec![0x0200, 0, 4];
    let mut ip = 0usize;
    push_try(&mut handlers, &code, &mut ip, 2);
    assert_eq!(ip, 3);
    assert_eq!(handlers, vec![TryHandler { catch_ip: 7, frame_depth: 2, err_reg: 2 }]);
    assert_eq!(deliver_error(&mut handlers.clone(), 2), Delivery::Uncaught);
    let d = deliver_error(&mut handlers, 1);
    assert_eq!(d, Delivery::Caught(TryHandler { catch_ip: 7, frame_depth: 2, err_reg: 2 }));
    assert!(handlers.is_empty());
    let mut bases = vec![0usize, 4, 9];
    let mut regs = vec![Value::Null; 12];
    if let Delivery::Caught(hd) = d {
        assert_eq!(unwind_to_handler(&mut bases, &mut regs, hd, Value::Int(-1)), 7);
    }
    assert_eq!(bases, vec![0, 4]);
    assert_eq!(regs[6], Value::Int(-1));
    let mut wide = vec![];
    let mut ip = 0usize;
    push_try(&mut wide, &vec![0x0100, 1, 0], &mut ip, 1);
    assert_eq!(wide, vec![TryHandler { catch_ip: 3 + 65536, frame_depth: 1, err_reg: 1 }]);
    let mut hs = vec![TryHandler { catch_ip: 1, frame_depth: 1, err_reg: 0 }];
    pop_try(&mut hs);
    assert!(hs.is_empty());
}

use varn_vm::classes::{op_define_setter, op_define_static_getter};
use varn_vm::heap::InstanceData;
use varn_vm::props::{get_property, set_property, PropertyRead, PropertyWrite};

#[test]
fn properties_read_through_the_class_chain() {
    let mut h = Heap::new();
    let base = op_class(&chars("Base"), &mut h);
    let sub = op_class(&chars("Sub"), &mut h);
    let greet = h.allocate(HeapObj::Closure(proto(0, false)));
    let getter = h.allocate(HeapObj::Closure(proto(0, false)));
    assert_eq!(op_method(base, &chars("greet"), greet, &mut h), Ok(()));
    assert_eq!(op_define_getter(base, &chars("size"), getter, &mut h), Ok(()));
    assert_eq!(op_inherit(sub, base, &mut h), Ok(()));
    let inst = h.allocate(HeapObj::Instance(InstanceData {
        class: 1,
        fields: vec![Field { key: chars("x"), value: Value::Int(5) }],
    }));
    assert_eq!(get_property(inst, &chars("x"), false, &mut h), Ok(PropertyRead::Value(Value::Int(5))));
    assert_eq!(
        get_property(inst, &chars("size"), false, &mut h),
        Ok(PropertyRead::CallGetter { getter, receiver: inst })
    );
    let before = h.len();
    assert_eq!(get_property(inst, &chars("greet"), false, &mut h), Ok(PropertyRead::Value(Value::Obj(before))));
    match h.get(before) {
        Some(HeapObj::BoundMethod(b)) => {
            assert_eq!(b.receiver, inst);
            assert_eq!(b.method, greet);
        }
        _ => panic!("no bound method"),
    }
    assert_eq!(get_property(inst, &chars("nope"), false, &mut h), Ok(PropertyRead::Value(Value::Null)));
    assert_eq!(op_define_static(base, &chars("count"), Value::Int(3), &mut h), Ok(()));
    assert_eq!(get_property(sub, &chars("count"), false, &mut h), Ok(PropertyRead::Value(Value::Int(3))));
    let sg = h.allocate(HeapObj::Closure(proto(0, false)));
    assert_eq!(op_define_static_getter(sub, &chars("count"), sg, &mut h), Ok(()));
    assert_eq!(
        get_property(sub, &chars("count"), false, &mut h),
        Ok(PropertyRead::CallGetter { getter: sg, receiver: sub })
    );
}

#[test]
fn properties_of_plain_values() {
    let mut h = Heap::new();
    let arr = h.allocate(HeapObj::Array(vec![Value::Int(1), Value::Int(2), Value::Int(3)]));
    let s = h.allocate(HeapObj::Str(chars("hello")));
    let obj = h.allocate(HeapObj::Object(vec![Field { key: chars("a"), value: Value::Bool(true) }]));
    assert_eq!(get_property(arr, &chars("length"), false, &mut h), Ok(PropertyRead::Value(Value::Int(3))));
    assert_eq!(get_property(s, &chars("length"), false, &mut h), Ok(PropertyRead::Value(Value::Int(5))));
    assert_eq!(get_property(arr, &chars("size"), false, &mut h), Ok(PropertyRead::Value(Value::Null)));
    assert_eq!(get_property(obj, &chars("a"), false, &mut h), Ok(PropertyRead::Value(Value::Bool(true))));
    assert_eq!(get_property(obj, &chars("b"), false, &mut h), Ok(PropertyRead::Value(Value::Null)));
    assert_eq!(get_property(Value::Null, &chars("a"), false, &mut h), Err(RuntimeError::PropertyOfNull));
    assert_eq!(get_property(Value::Null, &chars("a"), true, &mut h), Ok(PropertyRead::Value(Value::Null)));
    assert_eq!(get_property(Value::Int(4), &chars("a"), false, &mut h), Ok(PropertyRead::Value(Value::Null)));
}

#[test]
fn properties_are_written_or_refused() {
    let mut h = Heap::new();
    let obj = h.allocate(HeapObj::Object(vec![Field { key: chars("a"), value: Value::Int(1) }]));
    assert_eq!(set_property(obj, &chars("a"), Value::Int(2), &mut h), Ok(PropertyWrite::Done));
    assert_eq!(set_property(obj, &chars("b"), Value::Int(3), &mut h), Ok(PropertyWrite::Done));
    assert_eq!(fields_of(&h, obj), vec![("a".to_string(), Value::Int(2)), ("b".to_string(), Value::Int(3))]);
    let cls = op_class(&chars("C"), &mut h);
    let setter = h.allocate(HeapObj::Closure(proto(1, false)));
    assert_eq!(op_define_setter(cls, &chars("w"), setter, &mut h), Ok(()));
    let inst = h.allocate(HeapObj::Instance(InstanceData { class: 1, fields: vec![] }));
    assert_eq!(
        set_property(inst, &chars("w"), Value::Int(1), &mut h),
        Ok(PropertyWrite::CallSetter { setter, receiver: inst })
    );
    assert_eq!(set_property(inst, &chars("v"), Value::Int(7), &mut h), Ok(PropertyWrite::Done));
    assert_eq!(get_property(inst, &chars("v"), false, &mut h), Ok(PropertyRead::Value(Value::Int(7))));
    assert_eq!(set_property(cls, &chars("k"), Value::Int(9), &mut h), Ok(PropertyWrite::Done));
    assert_eq!(get_property(cls, &chars("k"), false, &mut h), Ok(PropertyRead::Value(Value::Int(9))));
    let rec = h.allocate(HeapObj::Record(vec![]));
    assert_eq!(set_property(rec, &chars("a"), Value::Int(1), &mut h), Err(RuntimeError::CannotSetProperty));
    assert_eq!(set_property(Value::Null, &chars("a"), Value::Int(1), &mut h), Err(RuntimeError::PropertyOfNull));
    assert_eq!(set_property(Value::Int(1), &chars("a"), Value::Int(1), &mut h), Err(RuntimeError::CannotSetProperty));
}

use varn_vm::methods::{call_method, call_value, MethodCall};

#[test]
fn calls_of_values_respect_the_depth_limit() {
    let mut h = Heap::new();
    let f = h.allocate(HeapObj::Closure(proto(2, false)));
    let mut staging = vec![Value::Int(42)];
    match call_value(f, &vec![Value::Null, Value::Int(1)], 3, &mut staging, &mut h) {
        Ok(Prepared::Frame { closure, window, class }) => {
            assert_eq!(closure, 0);
            assert_eq!(window, vec![Value::Null, Value::Int(1)]);
            assert_eq!(class, None);
        }
        other => panic!("{other:?}"),
    }
    assert_eq!(
        call_value(f, &vec![Value::Null], 10000, &mut staging, &mut h).unwrap_err(),
        RuntimeError::StackOverflow
    );
    let n = h.allocate(HeapObj::NativeFn(4));
    assert!(matches!(
        call_value(n, &vec![n, Value::Int(1)], 10000, &mut staging, &mut h),
        Ok(Prepared::RawNative { func: 4, arg_count: 2 })
    ));
    assert_eq!(staging, vec![n, Value::Int(1)]);
    assert_eq!(call_value(Value::Null, &vec![], 0, &mut staging, &mut h).unwrap_err(), RuntimeError::NullCallee);
    assert_eq!(call_value(Value::Obj(99), &vec![], 0, &mut staging, &mut h).unwrap_err(), RuntimeError::NotCallable { callee: Value::Obj(99) });
}

#[test]
fn method_calls_find_intrinsics_then_members() {
    let mut h = Heap::new();
    let arr = h.allocate(HeapObj::Array(vec![]));
    let mut staging = vec![];
    assert!(matches!(
        call_method(arr, &chars("push"), &vec![Value::Int(5)], 0, &mut staging, &mut h),
        Ok(MethodCall::Answered(Value::Null))
    ));
    assert!(matches!(h.get(0), Some(HeapObj::Array(a)) if a == &vec![Value::Int(5)]));
    let s = h.allocate(HeapObj::Str(chars("hello")));
    let p = h.allocate(HeapObj::Str(chars("he")));
    assert!(matches!(
        call_method(s, &chars("startsWith"), &vec![p], 0, &mut staging, &mut h),
        Ok(MethodCall::Answered(Value::Bool(true)))
    ));
    let cls = op_class(&chars("K"), &mut h);
    let m = h.allocate(HeapObj::Closure(ProtoInfo { has_this: true, ..proto(2, false) }));
    assert_eq!(op_method(cls, &chars("run"), m, &mut h), Ok(()));
    let inst = h.allocate(HeapObj::Instance(InstanceData { class: 3, fields: vec![] }));
    match call_method(inst, &chars("run"), &vec![Value::Int(7)], 0, &mut staging, &mut h) {
        Ok(MethodCall::Call(Prepared::Frame { closure, window, class })) => {
            assert_eq!(closure, 4);
            assert_eq!(window, vec![inst, Value::Int(7)]);
            assert_eq!(class, Some(3));
        }
        other => panic!("{other:?}"),
    }
    assert_eq!(
        call_method(inst, &chars("run"), &vec![Value::Int(7)], 10000, &mut staging, &mut h).unwrap_err(),
        RuntimeError::StackOverflow
    );
    let native = h.allocate(HeapObj::NativeFn(9));
    let ns = h.allocate(HeapObj::Object(vec![Field { key: chars("log"), value: native }]));
    assert!(matches!(
        call_method(ns, &chars("log"), &vec![Value::Int(1)], 0, &mut staging, &mut h),
        Ok(MethodCall::Call(Prepared::RawNative { func: 9, arg_count: 2 }))
    ));
    assert_eq!(staging, vec![native, Value::Null, Value::Int(1)]);
    assert_eq!(
        call_method(Value::Null, &chars("run"), &vec![], 0, &mut staging, &mut h).unwrap_err(),
        RuntimeError::PropertyOfNull
    );
    assert_eq!(
        call_method(ns, &chars("missing"), &vec![], 0, &mut staging, &mut h).unwrap_err(),
        RuntimeError::NullCallee
    );
}

use varn_vm::run::{Action, Activation, Event, Run};

fn act(base: usize, ip: usize, return_reg: Option<u8>) -> Activation {
    Activation { base, ip, return_reg }
}

#[test]
fn run_delivers_errors_and_returns() {
    let mut run = Run { frames: vec![act(0, 0, None)], handlers: vec![], regs: vec![Value::Null; 1024] };
    assert_eq!(run.next(0, Event::Continued { ip: 4 }), Action::Resume);
    assert_eq!(run.frames[0].ip, 4);
    assert_eq!(run.next(0, Event::TryStarted { catch_ip: 20, err_reg: 3 }), Action::Resume);
    assert_eq!(run.next(0, Event::Entered(act(256, 0, Some(1)))), Action::Resume);
    assert_eq!(run.next(0, Event::Raised(Value::Int(-7))), Action::Resume);
    assert_eq!(run.frames, vec![act(0, 20, None)]);
    assert!(run.handlers.is_empty());
    assert_eq!(run.regs[3], Value::Int(-7));
    assert_eq!(run.next(0, Event::Entered(act(256, 0, Some(1)))), Action::Resume);
    assert_eq!(run.next(0, Event::Returned(Value::Int(5))), Action::Resume);
    assert_eq!(run.regs[1], Value::Int(5));
    assert_eq!(run.frames.len(), 1);
    assert_eq!(run.next(0, Event::Raised(Value::Null)), Action::Propagate);
    assert_eq!(run.frames.len(), 1);
    assert_eq!(run.next(0, Event::Suspended { ip: 33 }), Action::Finished(Value::Null));
    assert_eq!(run.frames, vec![act(0, 33, None)]);
    assert_eq!(run.next(0, Event::Returned(Value::Bool(true))), Action::Finished(Value::Bool(true)));
    assert!(run.frames.is_empty());
}

#[test]
fn handlers_below_the_run_and_of_returned_frames_do_not_catch() {
    let mut run = Run { frames: vec![act(0, 0, None)], handlers: vec![], regs: vec![Value::Null; 1024] };
    assert_eq!(run.next(0, Event::TryStarted { catch_ip: 9, err_reg: 0 }), Action::Resume);
    assert_eq!(run.next(0, Event::Entered(act(256, 0, None))), Action::Resume);
    // a nested run that started with one frame live
    assert_eq!(run.next(1, Event::Raised(Value::Int(1))), Action::Propagate);
    assert_eq!(run.next(1, Event::TryStarted { catch_ip: 30, err_reg: 2 }), Action::Resume);
    assert_eq!(run.handlers.len(), 2);
    assert_eq!(run.next(0, Event::Returned(Value::Null)), Action::Resume);
    assert_eq!(run.handlers.len(), 1);
    assert_eq!(run.next(0, Event::TryEnded), Action::Resume);
    assert!(run.handlers.is_empty());
}

use varn_vm::classes::op_declare_field;

#[test]
fn inherited_fields_keep_the_superclass_slots() {
    let mut h = Heap::new();
    let base = op_class(&chars("Base"), &mut h);
    let sub = op_class(&chars("Sub"), &mut h);
    assert_eq!(op_declare_field(base, &chars("x"), &mut h), Ok(()));
    assert_eq!(op_declare_field(base, &chars("y"), &mut h), Ok(()));
    assert_eq!(op_declare_field(sub, &chars("z"), &mut h), Ok(()));
    assert_eq!(op_declare_field(sub, &chars("x"), &mut h), Ok(()));
    assert_eq!(op_declare_field(sub, &chars("w"), &mut h), Ok(()));
    assert_eq!(op_declare_field(sub, &chars("z"), &mut h), Ok(()));
    assert_eq!(op_inherit(sub, base, &mut h), Ok(()));
    let names: Vec<String> = class_of(&h, sub).fields.iter().map(|n| n.iter().collect()).collect();
    assert_eq!(names, vec!["x", "y", "z", "w"]);
    assert_eq!(op_declare_field(Value::Int(1), &chars("x"), &mut h), Err(RuntimeError::ExpectedClass));
}

use varn_vm::advanced::{instanceof, RuntimeKind};

#[test]
fn instanceof_walks_the_class_chain_and_tests_builtin_kinds() {
    let mut h = Heap::new();
    let base = op_class(&chars("Base"), &mut h);
    let sub = op_class(&chars("Sub"), &mut h);
    let other = op_class(&chars("Other"), &mut h);
    assert_eq!(op_inherit(sub, base, &mut h), Ok(()));
    let inst = h.allocate(HeapObj::Instance(InstanceData { class: 1, fields: vec![] }));
    assert_eq!(instanceof(inst, sub, None, &h), Ok(true));
    assert_eq!(instanceof(inst, base, None, &h), Ok(true));
    assert_eq!(instanceof(inst, other, None, &h), Ok(false));
    assert_eq!(instanceof(inst, Value::Int(0), None, &h), Ok(false));
    assert_eq!(instanceof(Value::Int(3), other, Some(RuntimeKind::Int), &h), Ok(true));
    assert_eq!(instanceof(Value::Int(3), other, Some(RuntimeKind::Float), &h), Ok(true));
    assert_eq!(instanceof(Value::Bool(true), other, Some(RuntimeKind::Int), &h), Ok(false));
    assert_eq!(instanceof(Value::Float(2.5f64.to_bits()), other, Some(RuntimeKind::Int), &h), Err(VmError::Deferred));
    let s = h.allocate(HeapObj::Str(chars("x")));
    assert_eq!(instanceof(s, other, Some(RuntimeKind::Str), &h), Ok(true));
    assert_eq!(instanceof(Value::Null, other, Some(RuntimeKind::Null), &h), Ok(true));
}

use varn_vm::control::{back_edge_flow, note_backedge, EdgeFlow};
use varn_vm::methods::{complete_host_call, host_call, HostResult};

#[test]
fn host_calls_get_their_arguments_and_answer_a_register() {
    let mut h = Heap::new();
    let n = h.allocate(HeapObj::NativeFn(5));
    let mut staging = vec![];
    let p = call_value(n, &vec![n, Value::Int(1), Value::Int(2)], 0, &mut staging, &mut h).unwrap();
    let (f, args) = host_call(&p, &staging).unwrap();
    assert_eq!(f, 5);
    assert_eq!(args, vec![Value::Int(1), Value::Int(2)]);
    let p = call_value(n, &vec![n], 0, &mut staging, &mut h).unwrap();
    assert_eq!(host_call(&p, &staging).unwrap().1, vec![]);
    let recv = Value::Int(40);
    let bm = h.allocate(HeapObj::BoundMethod(varn_vm::classes::BoundData { receiver: recv, method: n, owner: 0 }));
    let p = call_value(bm, &vec![bm, Value::Int(2)], 0, &mut staging, &mut h).unwrap();
    assert_eq!(host_call(&p, &staging).unwrap().1, vec![recv, Value::Int(2)]);
    let f2 = h.allocate(HeapObj::Closure(proto(1, false)));
    let p = call_value(f2, &vec![Value::Null], 0, &mut staging, &mut h).unwrap();
    assert!(host_call(&p, &staging).is_none());
    let cls = op_class(&chars("Host"), &mut h);
    let hm = h.allocate(HeapObj::NativeFn(8));
    assert_eq!(op_method(cls, &chars("size"), hm, &mut h), Ok(()));
    let inst = h.allocate(HeapObj::Instance(InstanceData { class: match cls { Value::Obj(i) => i, _ => 0 }, fields: vec![] }));
    match call_method(inst, &chars("size"), &vec![Value::Int(3)], 0, &mut staging, &mut h) {
        Ok(MethodCall::Call(p)) => {
            let (f, args) = host_call(&p, &staging).unwrap();
            assert_eq!(f, 8);
            assert_eq!(args, vec![inst, Value::Int(3)]);
        }
        other => panic!("{other:?}"),
    }
    let mut regs = vec![Value::Null; 4];
    assert_eq!(complete_host_call(&mut regs, 2, HostResult::Returned(Value::Int(9))), Ok(()));
    assert_eq!(regs[2], Value::Int(9));
    assert_eq!(complete_host_call(&mut regs, 1, HostResult::Failed(chars("bad"))), Err(chars("bad")));
    assert_eq!(regs[1], Value::Null);
}

#[test]
fn back_edges_ask_for_compiling_every_threshold() {
    let handlers: Vec<TryHandler> = vec![];
    let mut count = 0u32;
    for _ in 0..2 {
        assert!(!note_backedge(&mut count, 3, false, false, &handlers, 1));
    }
    assert_eq!(count, 2);
    assert!(note_backedge(&mut count, 3, false, false, &handlers, 1));
    assert_eq!(count, 0);
    assert_eq!(back_edge_flow(true), EdgeFlow::ContinueFrame);
    assert_eq!(back_edge_flow(false), EdgeFlow::ContinueInstruction);
    let mut count = 2u32;
    assert!(!note_backedge(&mut count, 3, true, false, &handlers, 1));
    assert_eq!(count, 2);
    assert!(!note_backedge(&mut count, 3, false, true, &handlers, 1));
    assert_eq!(count, 0);
    let own = vec![TryHandler { catch_ip: 0, frame_depth: 1, err_reg: 0 }];
    let mut count = 2u32;
    assert!(!note_backedge(&mut count, 3, false, false, &own, 1));
    let mut count = 2u32;
    assert!(note_backedge(&mut count, 3, false, false, &own, 2));
}
