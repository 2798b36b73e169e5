//! Instruction decoding and the register-level execution of the arithmetic
//! and comparison opcodes.
//!
//! An instruction's operand word packs two register numbers: the high byte
//! and the low byte. Registers are numbered from the frame's base in the
//! machine's register file.
use vstd::prelude::*;
use crate::value::{Value, truthy};
use crate::heap::{Heap, HeapObj};
use crate::error::{RuntimeError, VmError, IntOp};
use crate::arith::{
    Outcome, plain, outcome_done, outcome_result, add_outcome, sub_outcome, mul_outcome, div_outcome,
    modulo_outcome, pow_outcome, negate_outcome, shift_count,
};
use crate::compare::{values_eq, less_than};
use crate::collections::{
    IndexRead, index_read, read_done, index_write, array_index_write, write_done, length_of,
    push_done, pop_done, extend_done, keys_done, merge_done, is_array_ref, array_elems,
    object_fields,
};
use crate::advanced::{has_key, array_ref};
use crate::objects::{ObjectOp, object_op_ok, object_end, object_step, exec_object_op};

verus! {

/// The high byte of an operand word.
pub fn hi(w: u16) -> (r: usize)
    ensures
        r == w / 256,
{
    let x: u16 = w >> 8;
    assert(x == w / 256) by (bit_vector)
        requires
            x == w >> 8,
    ;
    x as usize
}

/// The low byte of an operand word.
pub fn lo(w: u16) -> (r: usize)
    ensures
        r == w % 256,
{
    let x: u16 = w & 0xFF;
    assert(x == w % 256) by (bit_vector)
        requires
            x == w & 0xFF,
    ;
    x as usize
}

/// The arithmetic and comparison opcodes.
#[derive(Clone, Copy, PartialEq, Eq, Structural, Debug)]
pub enum MathOp {
    Add,
    Sub,
    Mul,
    Div,
    Mod,
    Pow,
    BitAnd,
    BitOr,
    BitXor,
    Shl,
    Shr,
    Ushr,
    Negate,
    Not,
    /// Adds the signed byte in the low half of the operand word.
    AddImm,
    /// Subtracts the signed byte in the low half of the operand word.
    SubImm,
    AddInt,
    SubInt,
    MulInt,
    DivInt,
    ModInt,
    PowInt,
    LtInt,
    GtInt,
    LteInt,
    GteInt,
    EqInt,
    NeqInt,
    AddFloat,
    SubFloat,
    MulFloat,
    DivFloat,
    ModFloat,
    PowFloat,
    LtFloat,
    GtFloat,
    LteFloat,
    GteFloat,
    EqFloat,
    NeqFloat,
    Eq,
    Neq,
    Lt,
    Lte,
    Gt,
    Gte,
}

/// An opcode that reads one register (the high byte).
pub open spec fn is_unary(op: MathOp) -> bool {
    op == MathOp::Negate || op == MathOp::Not
}

/// An opcode whose second operand is the signed byte in the low half.
pub open spec fn is_immediate(op: MathOp) -> bool {
    op == MathOp::AddImm || op == MathOp::SubImm
}

/// An integer or a float.
pub open spec fn numeric(v: Value) -> bool {
    v is Int || v is Float
}

/// Whether a number is zero as a float: integer zero, or a float of either sign
/// with every other bit clear.
pub open spec fn zero_as_float(v: Value) -> bool {
    match v {
        Value::Int(n) => n == 0,
        Value::Float(bits) => crate::value::float_magnitude_bits(bits) == 0,
        _ => false,
    }
}

/// A boolean answer as a value.
pub open spec fn bool_value(r: Result<bool, VmError>) -> Result<Value, VmError> {
    match r {
        Ok(x) => Ok(Value::Bool(x)),
        Err(e) => Err(e),
    }
}

/// The opposite of a boolean answer.
pub open spec fn negated(r: Result<bool, VmError>) -> Result<bool, VmError> {
    match r {
        Ok(x) => Ok(!x),
        Err(e) => Err(e),
    }
}

/// An equality's answer.
pub open spec fn equality(o: Option<bool>, want: bool) -> Result<Value, VmError> {
    match o {
        Some(x) => Ok(Value::Bool(x == want)),
        None => Err(VmError::Deferred),
    }
}

/// An integer operation of two integers; anything else is left to the caller.
pub open spec fn on_ints(a: Value, b: Value, f: spec_fn(i64, i64) -> Result<Value, VmError>) -> Result<Value, VmError> {
    match (a, b) {
        (Value::Int(x), Value::Int(y)) => f(x, y),
        _ => Err(VmError::Deferred),
    }
}

/// The division by zero that a float division or remainder raises, else a
/// float result (left to the caller).
pub open spec fn float_division(b: Value, modulo: bool) -> Result<Value, VmError> {
    if zero_as_float(b) {
        Err(VmError::Runtime(RuntimeError::DivisionByZero { modulo }))
    } else {
        Err(VmError::Deferred)
    }
}

/// `a <= b`: on two integers directly, else the opposite of `b < a`.
pub open spec fn at_most(h: Seq<HeapObj>, a: Value, b: Value) -> Result<bool, VmError> {
    match (a, b) {
        (Value::Int(x), Value::Int(y)) => Ok(x <= y),
        _ => negated(less_than(h, b, a)),
    }
}

/// `a >= b`: on two integers directly, else the opposite of `a < b`.
pub open spec fn at_least(h: Seq<HeapObj>, a: Value, b: Value) -> Result<bool, VmError> {
    match (a, b) {
        (Value::Int(x), Value::Int(y)) => Ok(x >= y),
        _ => negated(less_than(h, a, b)),
    }
}

/// What opcode `op` gives on operands `a` and `b` over heap `h` (`b` is the
/// immediate for the immediate forms; unary opcodes ignore it). The float
/// forms compute in floats when both operands are numbers, which is left
/// to the caller, and otherwise take the general rule.
pub open spec fn math_outcome(op: MathOp, a: Value, b: Value, h: Seq<HeapObj>) -> Outcome {
    let floats = numeric(a) && numeric(b);
    match op {
        MathOp::Add | MathOp::AddInt | MathOp::AddImm => add_outcome(h, a, b),
        MathOp::Sub | MathOp::SubInt | MathOp::SubImm => sub_outcome(h, a, b),
        MathOp::Mul | MathOp::MulInt => mul_outcome(h, a, b),
        MathOp::Div | MathOp::DivInt => div_outcome(h, a, b),
        MathOp::Mod | MathOp::ModInt => modulo_outcome(h, a, b),
        MathOp::Pow | MathOp::PowInt => pow_outcome(h, a, b),
        MathOp::AddFloat => if floats { Outcome::Fail(VmError::Deferred) } else { add_outcome(h, a, b) },
        MathOp::SubFloat => if floats { Outcome::Fail(VmError::Deferred) } else { sub_outcome(h, a, b) },
        MathOp::MulFloat => if floats { Outcome::Fail(VmError::Deferred) } else { mul_outcome(h, a, b) },
        MathOp::DivFloat => if floats { plain(float_division(b, false)) } else { div_outcome(h, a, b) },
        MathOp::ModFloat => if floats { plain(float_division(b, true)) } else { modulo_outcome(h, a, b) },
        MathOp::PowFloat => if floats { Outcome::Fail(VmError::Deferred) } else { pow_outcome(h, a, b) },
        MathOp::BitAnd => plain(on_ints(a, b, |x: i64, y: i64| Ok(Value::Int(x & y)))),
        MathOp::BitOr => plain(on_ints(a, b, |x: i64, y: i64| Ok(Value::Int(x | y)))),
        MathOp::BitXor => plain(on_ints(a, b, |x: i64, y: i64| Ok(Value::Int(x ^ y)))),
        MathOp::Shl => plain(on_ints(a, b, |x: i64, y: i64| Ok(Value::Int(x << shift_count(y))))),
        MathOp::Shr => plain(on_ints(a, b, |x: i64, y: i64| Ok(Value::Int(x >> shift_count(y))))),
        MathOp::Ushr => plain(on_ints(a, b, |x: i64, y: i64| Ok(Value::Int(((x as u64) >> shift_count(y)) as i64)))),
        MathOp::Negate => negate_outcome(h, a),
        MathOp::Not => Outcome::Val(Value::Bool(!truthy(a))),
        MathOp::Lt | MathOp::LtInt => plain(bool_value(less_than(h, a, b))),
        MathOp::Gt | MathOp::GtInt => plain(bool_value(less_than(h, b, a))),
        MathOp::Lte | MathOp::LteInt => plain(bool_value(at_most(h, a, b))),
        MathOp::Gte | MathOp::GteInt => plain(bool_value(at_least(h, a, b))),
        MathOp::LtFloat => if floats { Outcome::Fail(VmError::Deferred) } else { plain(bool_value(less_than(h, a, b))) },
        MathOp::GtFloat => if floats { Outcome::Fail(VmError::Deferred) } else { plain(bool_value(less_than(h, b, a))) },
        MathOp::LteFloat => if floats { Outcome::Fail(VmError::Deferred) } else { plain(bool_value(at_most(h, a, b))) },
        MathOp::GteFloat => if floats { Outcome::Fail(VmError::Deferred) } else { plain(bool_value(at_least(h, a, b))) },
        MathOp::Eq | MathOp::EqInt => plain(equality(values_eq(h, a, b), true)),
        MathOp::Neq | MathOp::NeqInt => plain(equality(values_eq(h, a, b), false)),
        MathOp::EqFloat => if floats { Outcome::Fail(VmError::Deferred) } else { plain(equality(values_eq(h, a, b), true)) },
        MathOp::NeqFloat => if floats { Outcome::Fail(VmError::Deferred) } else { plain(equality(values_eq(h, a, b), false)) },
    }
}

/// The register that the high byte of `w` names.
pub open spec fn first_operand(regs: Seq<Value>, base: int, w: u16) -> Value {
    regs[base + w / 256]
}

/// The second operand: the register of the low byte, or for the immediate
/// forms the low byte as a signed integer.
pub open spec fn second_operand(op: MathOp, regs: Seq<Value>, base: int, w: u16) -> Value {
    if is_immediate(op) {
        Value::Int((w % 256) as u8 as i8 as i64)
    } else if is_unary(op) {
        Value::Null
    } else {
        regs[base + w % 256]
    }
}

/// The registers that the instruction reads and writes exist.
pub open spec fn registers_exist(op: MathOp, len: int, base: int, w: u16, dst: int) -> bool {
    &&& base + w / 256 < len
    &&& (is_immediate(op) || is_unary(op) || base + w % 256 < len)
    &&& base + dst < len
}

/// One arithmetic or comparison instruction at `ip` took registers `regs0`
/// and heap `h0` to `regs1` and `h1` and reported `r`: the result is written
/// to register `dst`, and on an error nothing is written.
pub open spec fn math_step(
    op: MathOp,
    code: Seq<u16>,
    ip: int,
    regs0: Seq<Value>,
    regs1: Seq<Value>,
    base: int,
    dst: int,
    h0: Seq<HeapObj>,
    h1: Seq<HeapObj>,
    r: Result<(), VmError>,
) -> bool {
    let w = code[ip];
    let a = first_operand(regs0, base, w);
    let b = second_operand(op, regs0, base, w);
    let res = outcome_result(h0, math_outcome(op, a, b, h0));
    &&& outcome_done(h0, h1, math_outcome(op, a, b, h0), res)
    &&& match res {
        Ok(v) => r is Ok && regs1 == regs0.update(base + dst, v),
        Err(e) => r == Err::<(), VmError>(e) && regs1 == regs0,
    }
}

/// Reads register `r` of the frame at `base`.
fn reg(regs: &Vec<Value>, base: usize, r: usize) -> (v: Value)
    requires
        base + r < regs@.len(),
    ensures
        v == regs@[base + r],
{
    let n = regs.len();
    regs[base + r]
}

/// The signed byte in the low half of `w`, as an integer.
fn immediate(w: u16) -> (v: i64)
    ensures
        v == (w % 256) as u8 as i8 as i64,
{
    let b: u8 = (w & 0xFF) as u8;
    assert(b == (w % 256) as u8) by (bit_vector)
        requires
            b == (w & 0xFF) as u8,
    ;
    (b as i8) as i64
}

/// Executes one arithmetic or comparison instruction: reads its operand word
/// at `ip`, computes from the operand registers (or the immediate), and
/// writes the result to register `dst`. On an error nothing is written.
pub fn exec_math_compare_op(
    op: MathOp,
    code: &Vec<u16>,
    ip: &mut usize,
    regs: &mut Vec<Value>,
    base: usize,
    dst: usize,
    heap: &mut Heap,
) -> (r: Result<(), VmError>)
    requires
        *old(ip) < code@.len(),
        registers_exist(op, old(regs)@.len() as int, base as int, code@[*old(ip) as int], dst as int),
        old(heap).wf(),
    ensures
        *final(ip) == *old(ip) + 1,
        final(heap).wf(),
        math_step(op, code@, *old(ip) as int, old(regs)@, final(regs)@, base as int, dst as int, old(heap)@, final(heap)@, r),
{
    let code_len = code.len();
    let reg_count = regs.len();
    let w = code[*ip];
    *ip = *ip + 1;
    let a = reg(regs, base, hi(w));
    let b = if op == MathOp::AddImm || op == MathOp::SubImm {
        Value::Int(immediate(w))
    } else if op == MathOp::Negate || op == MathOp::Not {
        Value::Null
    } else {
        reg(regs, base, lo(w))
    };
    let numeric_pair = match (a, b) {
        (Value::Int(_) | Value::Float(_), Value::Int(_) | Value::Float(_)) => true,
        _ => false,
    };
    let res: Result<Value, VmError> = match op {
        MathOp::Add | MathOp::AddInt | MathOp::AddImm => crate::arith::add(a, b, heap),
        MathOp::Sub | MathOp::SubInt | MathOp::SubImm => crate::arith::sub(a, b, heap),
        MathOp::Mul | MathOp::MulInt => crate::arith::mul(a, b, heap),
        MathOp::Div | MathOp::DivInt => crate::arith::div(a, b, heap),
        MathOp::Mod | MathOp::ModInt => crate::arith::modulo(a, b, heap),
        MathOp::Pow | MathOp::PowInt => crate::arith::pow(a, b, heap),
        MathOp::AddFloat => if numeric_pair { Err(VmError::Deferred) } else { crate::arith::add(a, b, heap) },
        MathOp::SubFloat => if numeric_pair { Err(VmError::Deferred) } else { crate::arith::sub(a, b, heap) },
        MathOp::MulFloat => if numeric_pair { Err(VmError::Deferred) } else { crate::arith::mul(a, b, heap) },
        MathOp::PowFloat => if numeric_pair { Err(VmError::Deferred) } else { crate::arith::pow(a, b, heap) },
        MathOp::DivFloat | MathOp::ModFloat => {
            if numeric_pair {
                let zero = match b {
                    Value::Int(n) => n == 0,
                    Value::Float(bits) => (bits & 0x7FFF_FFFF_FFFF_FFFFu64) == 0,
                    _ => false,
                };
                proof {
                    if let Value::Float(bits) = b {
                        assert((bits & 0x7FFF_FFFF_FFFF_FFFFu64) == bits as int % 0x8000_0000_0000_0000)
                            by (bit_vector);
                    }
                }
                if zero {
                    Err(VmError::Runtime(RuntimeError::DivisionByZero { modulo: op == MathOp::ModFloat }))
                } else {
                    Err(VmError::Deferred)
                }
            } else if op == MathOp::DivFloat {
                crate::arith::div(a, b, heap)
            } else {
                crate::arith::modulo(a, b, heap)
            }
        },
        MathOp::BitAnd => crate::arith::bit_and(a, b),
        MathOp::BitOr => crate::arith::bit_or(a, b),
        MathOp::BitXor => crate::arith::bit_xor(a, b),
        MathOp::Shl => crate::arith::shl(a, b),
        MathOp::Shr => crate::arith::shr(a, b),
        MathOp::Ushr => crate::arith::ushr(a, b),
        MathOp::Negate => crate::arith::negate(a, heap),
        MathOp::Not => Ok(crate::compare::logical_not(a)),
        MathOp::Lt | MathOp::LtInt => bool_result(crate::compare::lt_heap(a, b, heap)),
        MathOp::Gt | MathOp::GtInt => bool_result(crate::compare::gt_heap(a, b, heap)),
        MathOp::Lte | MathOp::LteInt => bool_result(crate::compare::lte_heap(a, b, heap)),
        MathOp::Gte | MathOp::GteInt => bool_result(crate::compare::gte_heap(a, b, heap)),
        MathOp::Eq | MathOp::EqInt => bool_result(crate::compare::eq(a, b, heap)),
        MathOp::Neq | MathOp::NeqInt => bool_result(crate::compare::neq(a, b, heap)),
        MathOp::LtFloat => if numeric_pair { Err(VmError::Deferred) } else { bool_result(crate::compare::lt_heap(a, b, heap)) },
        MathOp::GtFloat => if numeric_pair { Err(VmError::Deferred) } else { bool_result(crate::compare::gt_heap(a, b, heap)) },
        MathOp::LteFloat => if numeric_pair { Err(VmError::Deferred) } else { bool_result(crate::compare::lte_heap(a, b, heap)) },
        MathOp::GteFloat => if numeric_pair { Err(VmError::Deferred) } else { bool_result(crate::compare::gte_heap(a, b, heap)) },
        MathOp::EqFloat => if numeric_pair { Err(VmError::Deferred) } else { bool_result(crate::compare::eq(a, b, heap)) },
        MathOp::NeqFloat => if numeric_pair { Err(VmError::Deferred) } else { bool_result(crate::compare::neq(a, b, heap)) },
    };
    match res {
        Ok(v) => {
            regs.set(base + dst, v);
            Ok(())
        },
        Err(e) => Err(e),
    }
}

/// A boolean answer as a value.
fn bool_result(r: Result<bool, VmError>) -> (v: Result<Value, VmError>)
    ensures
        v == bool_value(r),
{
    match r {
        Ok(x) => Ok(Value::Bool(x)),
        Err(e) => Err(e),
    }
}

/// The collection and type-test opcodes.
#[derive(Clone, Copy, PartialEq, Eq, Structural, Debug)]
pub enum CollectionOp {
    AssertNotNull,
    GetIndex,
    ArrayGetIndex,
    SetIndex,
    ArraySetIndex,
    BuildArray,
    BuildTuple,
    ObjectKeys,
    ObjectMerge,
    ArrayLength,
    ArrayPush,
    ArrayPop,
    ArrayExtend,
    In,
    IsNull,
    IsArray,
}

/// What an index read gives.
pub open spec fn read_result(h: Seq<HeapObj>, obj: Value, key: Value) -> Result<Value, VmError> {
    match index_read(h, obj, key) {
        IndexRead::Elem(v) => Ok(v),
        IndexRead::NewChar(_) => Ok(Value::Obj(h.len() as usize)),
        IndexRead::Fail(e) => Err(e),
    }
}

/// What popping the array `arr` gives.
pub open spec fn pop_result(h: Seq<HeapObj>, arr: Value) -> Result<Value, VmError> {
    if is_array_ref(h, arr) {
        let a = array_elems(h, arr);
        if a.len() > 0 { Ok(a.last()) } else { Ok(Value::Null) }
    } else {
        Err(VmError::Runtime(RuntimeError::NotAnArray { array_op: crate::error::ArrayOp::Pop }))
    }
}

/// What listing the keys of `obj` gives.
pub open spec fn keys_result(h: Seq<HeapObj>, obj: Value) -> Result<Value, VmError> {
    match object_fields(h, obj) {
        Some(fs) => Ok(Value::Obj((h.len() + fs.len()) as usize)),
        None => if crate::collections::map_of(h, obj) is Some {
            Ok(Value::Obj(h.len() as usize))
        } else {
            Err(VmError::Runtime(RuntimeError::NotAnObject { object_op: crate::error::ObjectOp::Keys }))
        },
    }
}

/// Register `dst` of `regs1` holds the value of `res`, or on an error the
/// registers are as they were; `r` reports which.
pub open spec fn written(regs0: Seq<Value>, regs1: Seq<Value>, dst: int, res: Result<Value, VmError>, r: Result<(), VmError>) -> bool {
    match res {
        Ok(v) => r is Ok && regs1 == regs0.update(dst, v),
        Err(e) => r == Err::<(), VmError>(e) && regs1 == regs0,
    }
}

/// The registers that a collection instruction reads and writes exist.
pub open spec fn collection_registers_exist(op: CollectionOp, code: Seq<u16>, ip: int, len: int, base: int, dst: int) -> bool {
    let w = code[ip];
    match op {
        CollectionOp::BuildArray | CollectionOp::BuildTuple => {
            &&& ip + 1 < code.len()
            &&& base + w / 256 < len
            &&& base + w % 256 + code[ip + 1] / 256 <= len
        },
        CollectionOp::GetIndex | CollectionOp::ArrayGetIndex | CollectionOp::SetIndex
        | CollectionOp::ArraySetIndex | CollectionOp::In => {
            &&& base + w / 256 < len
            &&& base + w % 256 < len
            &&& base + dst < len
        },
        _ => {
            &&& base + w / 256 < len
            &&& base + dst < len
        },
    }
}

/// An index write into an array names an index that a vector can reach.
pub open spec fn write_index_ok(h: Seq<HeapObj>, obj: Value, key: Value) -> bool {
    obj matches Value::Obj(i) && i < h.len() && h[i as int] is Array
        ==> (key matches Value::Int(k) ==> 0 <= k < usize::MAX)
}

/// One collection instruction at `ip` took registers `regs0` and heap `h0`
/// to `regs1` and `h1`, and reported `r`. The operand word names the high
/// and low registers; `dst` is the instruction's own register, which the
/// writes into a collection (index writes, push, extend, merge) read as the
/// collection.
pub open spec fn collection_step(
    op: CollectionOp,
    code: Seq<u16>,
    ip: int,
    regs0: Seq<Value>,
    regs1: Seq<Value>,
    base: int,
    dst: int,
    h0: Seq<HeapObj>,
    h1: Seq<HeapObj>,
    r: Result<(), VmError>,
) -> bool {
    let w = code[ip];
    let x = regs0[base + w / 256];
    let y = regs0[base + w % 256];
    let t = regs0[base + dst];
    match op {
        CollectionOp::AssertNotNull => h1 == h0 && regs1 == regs0 && r == (if x is Null {
            Err::<(), VmError>(VmError::Runtime(RuntimeError::NullAssertion))
        } else {
            Ok(())
        }),
        CollectionOp::GetIndex | CollectionOp::ArrayGetIndex => {
            &&& read_done(h0, h1, x, y, read_result(h0, x, y))
            &&& written(regs0, regs1, base + dst, read_result(h0, x, y), r)
        },
        CollectionOp::SetIndex => regs1 == regs0 && write_done(h0, h1, index_write(h0, t, x, y), r),
        CollectionOp::ArraySetIndex => regs1 == regs0 && write_done(h0, h1, array_index_write(h0, t, x, y), r),
        CollectionOp::BuildArray | CollectionOp::BuildTuple => {
            let start = base + w % 256;
            let elems = regs0.subrange(start, start + code[ip + 1] / 256);
            &&& r is Ok
            &&& h1.len() == h0.len() + 1
            &&& h1.take(h0.len() as int) == h0
            &&& if op == CollectionOp::BuildTuple {
                h1.last() matches HeapObj::Tuple(a) && a@ == elems
            } else {
                h1.last() matches HeapObj::Array(a) && a@ == elems
            }
            &&& regs1 == regs0.update(base + w / 256, Value::Obj(h0.len() as usize))
        },
        CollectionOp::ObjectKeys => {
            &&& keys_done(h0, h1, x, keys_result(h0, x))
            &&& written(regs0, regs1, base + dst, keys_result(h0, x), r)
        },
        CollectionOp::ObjectMerge => merge_done(h0, h1, t, x) && regs1 == regs0
            && r == if crate::collections::merge_deferred(h0, t, x) { Err::<(), VmError>(VmError::Deferred) } else { Ok::<(), VmError>(()) },
        CollectionOp::ArrayLength => h1 == h0 && written(regs0, regs1, base + dst, length_of(h0, x), r),
        CollectionOp::ArrayPush => regs1 == regs0 && push_done(h0, h1, t, x, r),
        CollectionOp::ArrayPop => {
            &&& pop_done(h0, h1, x, pop_result(h0, x))
            &&& written(regs0, regs1, base + dst, pop_result(h0, x), r)
        },
        CollectionOp::ArrayExtend => regs1 == regs0 && extend_done(h0, h1, t, x, r),
        CollectionOp::In => h1 == h0 && written(regs0, regs1, base + dst, match has_key(h0, x, y) {
            Ok(b) => Ok(Value::Bool(b)),
            Err(e) => Err(e),
        }, r),
        CollectionOp::IsNull => h1 == h0 && r is Ok && regs1 == regs0.update(base + dst, Value::Bool(x is Null)),
        CollectionOp::IsArray => h1 == h0 && r is Ok && regs1 == regs0.update(base + dst, Value::Bool(array_ref(h0, x))),
    }
}

/// Writes `res` to register `at` when it is a value.
fn write_result(regs: &mut Vec<Value>, at: usize, res: Result<Value, VmError>) -> (r: Result<(), VmError>)
    requires
        at < old(regs)@.len(),
    ensures
        written(old(regs)@, final(regs)@, at as int, res, r),
{
    match res {
        Ok(v) => {
            regs.set(at, v);
            Ok(())
        },
        Err(e) => Err(e),
    }
}

/// Executes one collection or type-test instruction.
pub fn exec_collection_op(
    op: CollectionOp,
    code: &Vec<u16>,
    ip: &mut usize,
    regs: &mut Vec<Value>,
    base: usize,
    dst: usize,
    heap: &mut Heap,
) -> (r: Result<(), VmError>)
    requires
        *old(ip) < code@.len(),
        collection_registers_exist(op, code@, *old(ip) as int, old(regs)@.len() as int, base as int, dst as int),
        old(heap).wf(),
        op == CollectionOp::SetIndex || op == CollectionOp::ArraySetIndex ==> {
            let w = code@[*old(ip) as int];
            write_index_ok(old(heap)@, old(regs)@[base + dst], old(regs)@[base + w / 256])
        },
    ensures
        *final(ip) == *old(ip) + (if op == CollectionOp::BuildArray || op == CollectionOp::BuildTuple { 2int } else { 1int }),
        final(heap).wf(),
        collection_step(op, code@, *old(ip) as int, old(regs)@, final(regs)@, base as int, dst as int, old(heap)@, final(heap)@, r),
{
    let code_len = code.len();
    let reg_count = regs.len();
    let w = code[*ip];
    *ip = *ip + 1;
    let x = reg(regs, base, hi(w));
    match op {
        CollectionOp::AssertNotNull => match crate::advanced::assert_not_null(x) {
            Ok(()) => Ok(()),
            Err(e) => Err(VmError::Runtime(e)),
        },
        CollectionOp::GetIndex => {
            let y = reg(regs, base, lo(w));
            let res = crate::collections::get_index(x, y, heap);
            write_result(regs, base + dst, res)
        },
        CollectionOp::ArrayGetIndex => {
            let y = reg(regs, base, lo(w));
            let res = crate::collections::array_get_index(x, y, heap);
            write_result(regs, base + dst, res)
        },
        CollectionOp::SetIndex => {
            let y = reg(regs, base, lo(w));
            let t = reg(regs, base, dst);
            crate::collections::set_index(t, x, y, heap)
        },
        CollectionOp::ArraySetIndex => {
            let y = reg(regs, base, lo(w));
            let t = reg(regs, base, dst);
            crate::collections::array_set_index(t, x, y, heap)
        },
        CollectionOp::BuildArray | CollectionOp::BuildTuple => {
            let w2 = code[*ip];
            *ip = *ip + 1;
            let dest = hi(w);
            let start = base + lo(w);
            let count = hi(w2);
            let mut elems: Vec<Value> = Vec::new();
            let mut k: usize = 0;
            while k < count
                invariant
                    k <= count,
                    start + count <= regs@.len(),
                    regs@.len() == reg_count,
                    elems@ == regs@.subrange(start as int, start + k),
                decreases count - k,
            {
                elems.push(regs[start + k]);
                assert(regs@.subrange(start as int, start + k + 1) =~= regs@.subrange(start as int, start + k).push(regs@[start + k]));
                k = k + 1;
            }
            let ghost before = heap@;
            let v = if op == CollectionOp::BuildTuple {
                heap.allocate(HeapObj::Tuple(elems))
            } else {
                heap.allocate(HeapObj::Array(elems))
            };
            assert(heap@.take(before.len() as int) =~= before);
            regs.set(base + dest, v);
            Ok(())
        },
        CollectionOp::ObjectKeys => {
            let res = crate::collections::object_keys(x, heap);
            write_result(regs, base + dst, res)
        },
        CollectionOp::ObjectMerge => {
            let t = reg(regs, base, dst);
            match crate::collections::object_merge(t, x, heap) {
                Ok(_) => Ok(()),
                Err(e) => Err(e),
            }
        },
        CollectionOp::ArrayLength => {
            let res = crate::collections::array_length(x, heap);
            write_result(regs, base + dst, res)
        },
        CollectionOp::ArrayPush => {
            let t = reg(regs, base, dst);
            crate::collections::array_push(t, x, heap)
        },
        CollectionOp::ArrayPop => {
            let res = crate::collections::array_pop(x, heap);
            write_result(regs, base + dst, res)
        },
        CollectionOp::ArrayExtend => {
            let t = reg(regs, base, dst);
            crate::collections::array_extend(t, x, heap)
        },
        CollectionOp::In => {
            let y = reg(regs, base, lo(w));
            let res = match crate::advanced::op_in(x, y, heap) {
                Ok(b) => Ok(Value::Bool(b)),
                Err(e) => Err(e),
            };
            write_result(regs, base + dst, res)
        },
        CollectionOp::IsNull => {
            regs.set(base + dst, Value::Bool(x.is_null()));
            Ok(())
        },
        CollectionOp::IsArray => {
            let b = crate::advanced::is_array(x, heap);
            regs.set(base + dst, Value::Bool(b));
            Ok(())
        },
    }
}

/// The branch opcodes. A branch's offset is the 32-bit number in the two
/// code units after the opcode, high half first.
#[derive(Clone, Copy, PartialEq, Eq, Structural, Debug)]
pub enum BranchOp {
    Jump,
    /// A jump backwards: a loop's back edge.
    Loop,
    /// Jumps when the instruction's register holds a falsy value.
    JumpIfFalse,
    /// Jumps when the instruction's register holds a truthy value.
    JumpIfTrue,
    /// Returns the value of the register in the low byte of the operand word.
    Return,
}

/// How execution goes on after a branch instruction.
#[derive(Clone, Copy, PartialEq, Eq, Structural, Debug)]
pub enum Flow {
    /// With the instruction at the new `ip`.
    Continue,
    /// With the instruction at the new `ip`, after the machine's back-edge
    /// work (a collection safepoint and the loop counters).
    BackEdge,
    /// Out of the frame, with this value.
    Return(Value),
}

/// The 32-bit offset in the two code units at `ip`.
pub open spec fn wide_offset(code: Seq<u16>, ip: int) -> int {
    code[ip] * 65536 + code[ip + 1]
}

/// Reads the 32-bit offset at `ip`.
pub(crate) fn read_offset(code: &Vec<u16>, ip: usize) -> (off: usize)
    requires
        ip + 1 < code@.len(),
    ensures
        off == wide_offset(code@, ip as int),
{
    let code_len = code.len();
    let h: u16 = code[ip];
    let l: u16 = code[ip + 1];
    let x: u32 = ((h as u32) << 16u32) | (l as u32);
    assert(x == h * 65536 + l) by (bit_vector)
        requires
            x == ((h as u32) << 16u32) | (l as u32),
    ;
    x as usize
}

/// What a branch instruction needs: its operand units, a register for the
/// conditional forms and returns, and an `ip` that stays within `usize`.
pub open spec fn branch_ok(op: BranchOp, code: Seq<u16>, ip: int, len: int, base: int, dst: int) -> bool {
    match op {
        BranchOp::Return => ip < code.len() && base + code[ip] % 256 < len,
        BranchOp::Loop => ip + 1 < code.len() && wide_offset(code, ip) <= ip + 2,
        BranchOp::Jump => ip + 1 < code.len() && ip + 2 + wide_offset(code, ip) <= usize::MAX,
        _ => ip + 1 < code.len() && ip + 2 + wide_offset(code, ip) <= usize::MAX && base + dst < len,
    }
}

/// Where a branch instruction at `ip` leaves `ip`, and how execution goes on.
pub open spec fn branch_step(op: BranchOp, code: Seq<u16>, ip: int, regs: Seq<Value>, base: int, dst: int) -> (int, Flow) {
    match op {
        BranchOp::Jump => (ip + 2 + wide_offset(code, ip), Flow::Continue),
        BranchOp::Loop => (ip + 2 - wide_offset(code, ip), Flow::BackEdge),
        BranchOp::JumpIfFalse => (crate::control::branched(ip + 2, wide_offset(code, ip), regs[base + dst], false), Flow::Continue),
        BranchOp::JumpIfTrue => (crate::control::branched(ip + 2, wide_offset(code, ip), regs[base + dst], true), Flow::Continue),
        BranchOp::Return => (ip, Flow::Return(regs[base + code[ip] % 256])),
    }
}

/// Executes one branch instruction.
pub fn exec_branch_op(op: BranchOp, code: &Vec<u16>, ip: &mut usize, regs: &Vec<Value>, base: usize, dst: usize) -> (f: Flow)
    requires
        branch_ok(op, code@, *old(ip) as int, regs@.len() as int, base as int, dst as int),
    ensures
        (*final(ip) as int, f) == branch_step(op, code@, *old(ip) as int, regs@, base as int, dst as int),
{
    let code_len = code.len();
    let reg_count = regs.len();
    match op {
        BranchOp::Return => {
            let src = lo(code[*ip]);
            Flow::Return(reg(regs, base, src))
        },
        _ => {
            let offset = read_offset(code, *ip);
            *ip = *ip + 2;
            match op {
                BranchOp::Jump => {
                    *ip = *ip + offset;
                    Flow::Continue
                },
                BranchOp::Loop => {
                    *ip = *ip - offset;
                    Flow::BackEdge
                },
                BranchOp::JumpIfFalse => {
                    if !reg(regs, base, dst).is_truthy() {
                        *ip = *ip + offset;
                    }
                    Flow::Continue
                },
                _ => {
                    if reg(regs, base, dst).is_truthy() {
                        *ip = *ip + offset;
                    }
                    Flow::Continue
                },
            }
        },
    }
}

/// The opcodes that load literals, constants and globals, move registers and
/// store globals.
#[derive(Clone, Copy, PartialEq, Eq, Structural, Debug)]
pub enum LoadOp {
    LoadNull,
    LoadTrue,
    LoadFalse,
    /// Loads the signed 16-bit integer in the next code unit.
    LoadInt,
    LoadIntZero,
    LoadIntOne,
    LoadIntMinusOne,
    /// Loads the constant that the next code unit numbers.
    LoadConst,
    /// Copies the register in the high byte of the next code unit.
    Move,
    /// Loads the global that the next code unit numbers within the module.
    LoadGlobalIdx,
    /// Loads the global that the next code unit numbers among all globals.
    LoadNativeGlobalIdx,
    /// Stores the register in the high byte of the next code unit into the
    /// global that the unit after it numbers within the module.
    StoreGlobalIdx,
    /// Defines a global as [`LoadOp::StoreGlobalIdx`] stores one.
    DefineGlobalIdx,
}

/// How many code units a load or store instruction reads after its opcode.
pub open spec fn load_units(op: LoadOp) -> int {
    match op {
        LoadOp::LoadNull | LoadOp::LoadTrue | LoadOp::LoadFalse | LoadOp::LoadIntZero
        | LoadOp::LoadIntOne | LoadOp::LoadIntMinusOne => 0,
        LoadOp::StoreGlobalIdx | LoadOp::DefineGlobalIdx => 2,
        _ => 1,
    }
}

/// What a load or store instruction needs: its code units, and the
/// register, constant and global it names.
pub open spec fn load_ok(
    op: LoadOp,
    code: Seq<u16>,
    ip: int,
    nregs: int,
    base: int,
    dst: int,
    nconsts: int,
    nglobals: int,
    module_base: int,
) -> bool {
    &&& ip + load_units(op) <= code.len()
    &&& match op {
        LoadOp::LoadConst => base + dst < nregs && code[ip] < nconsts,
        LoadOp::Move => base + dst < nregs && base + code[ip] / 256 < nregs,
        LoadOp::LoadGlobalIdx => base + dst < nregs && module_base + code[ip] < nglobals,
        LoadOp::LoadNativeGlobalIdx => base + dst < nregs && code[ip] < nglobals,
        LoadOp::StoreGlobalIdx | LoadOp::DefineGlobalIdx =>
            base + code[ip] / 256 < nregs && module_base + code[ip + 1] < nglobals,
        _ => base + dst < nregs,
    }
}

/// The value that a load instruction writes to its register.
pub open spec fn loaded(op: LoadOp, code: Seq<u16>, ip: int, regs: Seq<Value>, base: int, consts: Seq<Value>, globals: Seq<Value>, module_base: int) -> Value {
    match op {
        LoadOp::LoadNull => Value::Null,
        LoadOp::LoadTrue => Value::Bool(true),
        LoadOp::LoadFalse => Value::Bool(false),
        LoadOp::LoadInt => Value::Int(code[ip] as i16 as i64),
        LoadOp::LoadIntZero => Value::Int(0),
        LoadOp::LoadIntOne => Value::Int(1),
        LoadOp::LoadIntMinusOne => Value::Int(-1i64),
        LoadOp::LoadConst => consts[code[ip] as int],
        LoadOp::Move => regs[base + code[ip] / 256],
        LoadOp::LoadGlobalIdx => globals[module_base + code[ip]],
        _ => globals[code[ip] as int],
    }
}

/// One load or store instruction at `ip` took registers `regs0` and globals
/// `g0` to `regs1` and `g1`.
pub open spec fn load_step(
    op: LoadOp,
    code: Seq<u16>,
    ip: int,
    regs0: Seq<Value>,
    regs1: Seq<Value>,
    base: int,
    dst: int,
    consts: Seq<Value>,
    g0: Seq<Value>,
    g1: Seq<Value>,
    module_base: int,
) -> bool {
    if op == LoadOp::StoreGlobalIdx || op == LoadOp::DefineGlobalIdx {
        &&& regs1 == regs0
        &&& g1 == g0.update(module_base + code[ip + 1], regs0[base + code[ip] / 256])
    } else {
        &&& g1 == g0
        &&& regs1 == regs0.update(base + dst, loaded(op, code, ip, regs0, base, consts, g0, module_base))
    }
}

/// Executes one load or store instruction.
pub fn exec_load_op(
    op: LoadOp,
    code: &Vec<u16>,
    ip: &mut usize,
    regs: &mut Vec<Value>,
    base: usize,
    dst: usize,
    consts: &Vec<Value>,
    globals: &mut Vec<Value>,
    module_base: usize,
)
    requires
        load_ok(op, code@, *old(ip) as int, old(regs)@.len() as int, base as int, dst as int,
            consts@.len() as int, old(globals)@.len() as int, module_base as int),
    ensures
        *final(ip) == *old(ip) + load_units(op),
        load_step(op, code@, *old(ip) as int, old(regs)@, final(regs)@, base as int, dst as int, consts@,
            old(globals)@, final(globals)@, module_base as int),
{
    let code_len = code.len();
    let reg_count = regs.len();
    let global_count = globals.len();
    match op {
        LoadOp::StoreGlobalIdx | LoadOp::DefineGlobalIdx => {
            let src = hi(code[*ip]);
            let g = module_base + code[*ip + 1] as usize;
            *ip = *ip + 2;
            let v = reg(regs, base, src);
            globals.set(g, v);
        },
        _ => {
            let v = match op {
                LoadOp::LoadNull => Value::Null,
                LoadOp::LoadTrue => Value::Bool(true),
                LoadOp::LoadFalse => Value::Bool(false),
                LoadOp::LoadIntZero => Value::Int(0),
                LoadOp::LoadIntOne => Value::Int(1),
                LoadOp::LoadIntMinusOne => Value::Int(-1),
                _ => {
                    let u = code[*ip];
                    *ip = *ip + 1;
                    match op {
                        LoadOp::LoadInt => Value::Int(u as i16 as i64),
                        LoadOp::LoadConst => consts[u as usize],
                        LoadOp::Move => reg(regs, base, hi(u)),
                        LoadOp::LoadGlobalIdx => globals[module_base + u as usize],
                        _ => globals[u as usize],
                    }
                },
            };
            regs.set(base + dst, v);
        },
    }
}

/// A decoded instruction.
#[derive(Clone, Copy, PartialEq, Eq, Structural, Debug)]
pub enum Instr {
    Math(MathOp),
    Collection(CollectionOp),
    Branch(BranchOp),
    Load(LoadOp),
    Object(ObjectOp),
}

/// The state an instruction works on.
pub struct Frame {
    /// The register file; the frame's registers start at `base`.
    pub regs: Vec<Value>,
    pub base: usize,
    /// The machine's globals; the frame's module's start at `module_base`.
    pub globals: Vec<Value>,
    pub module_base: usize,
    /// The frame's constants.
    pub consts: Vec<Value>,
    /// The property names of the object shapes that the code builds.
    pub shapes: Vec<Vec<Vec<char>>>,
    pub heap: Heap,
}

/// What an instruction needs: its operands, registers, constants and
/// globals exist, and an index write into an array names a reachable index.
pub open spec fn instr_ok(i: Instr, code: Seq<u16>, ip: int, f: Frame, dst: int) -> bool {
    let nregs = f.regs@.len() as int;
    let base = f.base as int;
    &&& f.heap.wf()
    &&& match i {
        Instr::Math(op) => ip < code.len() && registers_exist(op, nregs, base, code[ip], dst),
        Instr::Collection(op) => {
            &&& ip < code.len()
            &&& collection_registers_exist(op, code, ip, nregs, base, dst)
            &&& (op == CollectionOp::SetIndex || op == CollectionOp::ArraySetIndex
                ==> write_index_ok(f.heap@, f.regs@[base + dst], f.regs@[base + code[ip] / 256]))
        },
        Instr::Branch(op) => branch_ok(op, code, ip, nregs, base, dst),
        Instr::Load(op) => load_ok(op, code, ip, nregs, base, dst, f.consts@.len() as int,
            f.globals@.len() as int, f.module_base as int),
        Instr::Object(op) => object_op_ok(op, code, ip, nregs, base, f.consts@.len() as int, f.shapes@),
    }
}

/// The position after instruction `i`'s operands, for the instructions that
/// do not jump.
pub open spec fn operand_end(i: Instr, code: Seq<u16>, ip: int) -> int {
    match i {
        Instr::Math(_) => ip + 1,
        Instr::Collection(op) => if op == CollectionOp::BuildArray || op == CollectionOp::BuildTuple { ip + 2 } else { ip + 1 },
        Instr::Load(op) => ip + load_units(op),
        Instr::Object(op) => object_end(op, code, ip),
        Instr::Branch(_) => ip,
    }
}

/// Instruction `i` with operands at `ip` and destination register `dst`
/// took frame `f0` to `f1`, left `ip` at `ip1` and reported `r`.
pub open spec fn instr_step(i: Instr, code: Seq<u16>, ip: int, dst: int, f0: Frame, f1: Frame, ip1: int, r: Result<Flow, VmError>) -> bool {
    let base = f0.base as int;
    &&& f1.base == f0.base
    &&& f1.module_base == f0.module_base
    &&& f1.consts@ == f0.consts@
    &&& f1.shapes@ == f0.shapes@
    &&& match i {
        Instr::Math(op) => {
            &&& f1.globals@ == f0.globals@
            &&& ip1 == operand_end(i, code, ip)
            &&& exists|u: Result<(), VmError>| #![auto] math_step(op, code, ip, f0.regs@, f1.regs@, base, dst, f0.heap@, f1.heap@, u)
                && r == (match u { Ok(_) => Ok::<Flow, VmError>(Flow::Continue), Err(e) => Err(e) })
        },
        Instr::Collection(op) => {
            &&& f1.globals@ == f0.globals@
            &&& ip1 == operand_end(i, code, ip)
            &&& exists|u: Result<(), VmError>| #![auto] collection_step(op, code, ip, f0.regs@, f1.regs@, base, dst, f0.heap@, f1.heap@, u)
                && r == (match u { Ok(_) => Ok::<Flow, VmError>(Flow::Continue), Err(e) => Err(e) })
        },
        Instr::Branch(op) => {
            &&& f1.globals@ == f0.globals@
            &&& f1.regs@ == f0.regs@
            &&& f1.heap@ == f0.heap@
            &&& (ip1, r->Ok_0) == branch_step(op, code, ip, f0.regs@, base, dst)
            &&& r is Ok
        },
        Instr::Load(op) => {
            &&& f1.heap@ == f0.heap@
            &&& ip1 == operand_end(i, code, ip)
            &&& r == Ok::<Flow, VmError>(Flow::Continue)
            &&& load_step(op, code, ip, f0.regs@, f1.regs@, base, dst, f0.consts@, f0.globals@, f1.globals@, f0.module_base as int)
        },
        Instr::Object(op) => {
            &&& f1.globals@ == f0.globals@
            &&& ip1 == operand_end(i, code, ip)
            &&& exists|u: Result<(), VmError>| #![auto] object_step(op, code, ip, f0.regs@, f1.regs@, base, f0.consts@, f0.shapes@, f0.heap@, f1.heap@, u)
                && r == (match u { Ok(_) => Ok::<Flow, VmError>(Flow::Continue), Err(e) => Err(e) })
        },
    }
}

/// Executes instruction `i`, whose operands start at `ip` and whose
/// destination register is `dst`.
pub fn exec_instruction(i: Instr, code: &Vec<u16>, ip: &mut usize, dst: usize, f: &mut Frame) -> (r: Result<Flow, VmError>)
    requires
        instr_ok(i, code@, *old(ip) as int, *old(f), dst as int),
    ensures
        final(f).heap.wf(),
        instr_step(i, code@, *old(ip) as int, dst as int, *old(f), *final(f), *final(ip) as int, r),
{
    let ghost ip0 = *ip as int;
    let ghost regs0 = f.regs@;
    let ghost h0 = f.heap@;
    match i {
        Instr::Math(op) => {
            let u = exec_math_compare_op(op, code, ip, &mut f.regs, f.base, dst, &mut f.heap);
            assert(math_step(op, code@, ip0, regs0, f.regs@, f.base as int, dst as int, h0, f.heap@, u));
            match u {
                Ok(_) => Ok(Flow::Continue),
                Err(e) => Err(e),
            }
        },
        Instr::Collection(op) => {
            let u = exec_collection_op(op, code, ip, &mut f.regs, f.base, dst, &mut f.heap);
            assert(collection_step(op, code@, ip0, regs0, f.regs@, f.base as int, dst as int, h0, f.heap@, u));
            match u {
                Ok(_) => Ok(Flow::Continue),
                Err(e) => Err(e),
            }
        },
        Instr::Branch(op) => Ok(exec_branch_op(op, code, ip, &f.regs, f.base, dst)),
        Instr::Load(op) => {
            exec_load_op(op, code, ip, &mut f.regs, f.base, dst, &f.consts, &mut f.globals, f.module_base);
            Ok(Flow::Continue)
        },
        Instr::Object(op) => {
            let u = exec_object_op(op, code, ip, &mut f.regs, f.base, &f.consts, &f.shapes, &mut f.heap);
            assert(object_step(op, code@, ip0, regs0, f.regs@, f.base as int, f.consts@, f.shapes@, h0, f.heap@, u));
            match u {
                Ok(_) => Ok(Flow::Continue),
                Err(e) => Err(e),
            }
        },
    }
}

/// The instruction that an opcode byte names, from the compiler's table of
/// opcodes.
pub open spec fn decoded(table: Seq<Option<Instr>>, byte: int) -> Option<Instr> {
    if byte < table.len() { table[byte] } else { None }
}

/// One step of the interpreter loop at `ip`: past the end of the code the
/// frame returns its register 0; otherwise the code unit at `ip` names the
/// opcode (low byte) and the destination register (high byte), and the
/// instruction runs with its operands after it. An opcode byte the table
/// does not name is an error.
pub fn step(table: &Vec<Option<Instr>>, code: &Vec<u16>, ip: &mut usize, f: &mut Frame) -> (r: Result<Flow, VmError>)
    requires
        old(f).heap.wf(),
        old(f).base < old(f).regs@.len(),
        *old(ip) < code@.len() ==> match decoded(table@, (code@[*old(ip) as int] % 256) as int) {
            Some(i) => instr_ok(i, code@, *old(ip) + 1, *old(f), (code@[*old(ip) as int] / 256) as int),
            None => true,
        },
    ensures
        final(f).heap.wf(),
        *old(ip) >= code@.len() ==> r == Ok::<Flow, VmError>(Flow::Return(old(f).regs@[old(f).base as int]))
            && *final(ip) == *old(ip) && final(f).regs@ == old(f).regs@ && final(f).heap@ == old(f).heap@
            && final(f).globals@ == old(f).globals@,
        *old(ip) < code@.len() ==> match decoded(table@, (code@[*old(ip) as int] % 256) as int) {
            Some(i) => instr_step(i, code@, *old(ip) + 1, (code@[*old(ip) as int] / 256) as int, *old(f), *final(f), *final(ip) as int, r),
            None => r == Err::<Flow, VmError>(VmError::Runtime(RuntimeError::UnknownOpcode { byte: ((code@[*old(ip) as int] % 256) as int) as u8 }))
                && final(f).regs@ == old(f).regs@ && final(f).heap@ == old(f).heap@
                && final(f).globals@ == old(f).globals@,
        },
{
    if *ip >= code.len() {
        return Ok(Flow::Return(reg(&f.regs, f.base, 0)));
    }
    let raw = code[*ip];
    *ip = *ip + 1;
    let byte = lo(raw);
    let dst = hi(raw);
    let decoded_instr: Option<Instr> = if byte < table.len() { table[byte] } else { None };
    match decoded_instr {
        Some(i) => exec_instruction(i, code, ip, dst, f),
        None => {
            let b: u8 = (raw & 0xFF) as u8;
            assert(b == raw % 256) by (bit_vector)
                requires
                    b == (raw & 0xFF) as u8,
            ;
            Err(VmError::Runtime(RuntimeError::UnknownOpcode { byte: b }))
        },
    }
}

/// An arithmetic outcome never takes objects off the heap.
proof fn lemma_outcome_keeps_heap(h0: Seq<HeapObj>, h1: Seq<HeapObj>, o: Outcome, r: Result<Value, VmError>)
    requires
        outcome_done(h0, h1, o, r),
    ensures
        h1.len() >= h0.len(),
{
}

/// An instruction never takes objects off the heap: every reference that
/// was valid before it stays valid after it.
pub proof fn lemma_instruction_keeps_references(
    i: Instr,
    code: Seq<u16>,
    ip: int,
    dst: int,
    f0: Frame,
    f1: Frame,
    ip1: int,
    r: Result<Flow, VmError>,
)
    requires
        instr_step(i, code, ip, dst, f0, f1, ip1, r),
    ensures
        f1.heap@.len() >= f0.heap@.len(),
{
    let base = f0.base as int;
    match i {
        Instr::Math(op) => {
            let u = choose|u: Result<(), VmError>| #![auto] math_step(op, code, ip, f0.regs@, f1.regs@, base, dst, f0.heap@, f1.heap@, u)
                && r == (match u { Ok(_) => Ok::<Flow, VmError>(Flow::Continue), Err(e) => Err(e) });
            let w = code[ip];
            let a = first_operand(f0.regs@, base, w);
            let b = second_operand(op, f0.regs@, base, w);
            let o = math_outcome(op, a, b, f0.heap@);
            lemma_outcome_keeps_heap(f0.heap@, f1.heap@, o, outcome_result(f0.heap@, o));
        },
        Instr::Collection(op) => {
            let u = choose|u: Result<(), VmError>| #![auto] collection_step(op, code, ip, f0.regs@, f1.regs@, base, dst, f0.heap@, f1.heap@, u)
                && r == (match u { Ok(_) => Ok::<Flow, VmError>(Flow::Continue), Err(e) => Err(e) });
        },
        Instr::Object(op) => {
            let u = choose|u: Result<(), VmError>| #![auto] object_step(op, code, ip, f0.regs@, f1.regs@, base, f0.consts@, f0.shapes@, f0.heap@, f1.heap@, u)
                && r == (match u { Ok(_) => Ok::<Flow, VmError>(Flow::Continue), Err(e) => Err(e) });
        },
        _ => {},
    }
}

} // verus!
