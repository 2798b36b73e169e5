//! The object literal opcodes: building an object from key and register
//! pairs, building an object or a record from a shape, and the rest pattern
//! of object destructuring.
//!
//! Keys come from the frame's constants: a constant that refers to a string
//! gives that string, any other constant the empty key.
use vstd::prelude::*;
use crate::value::Value;
use crate::heap::{Heap, HeapObj, Field, fields_view, keys_distinct, set_field};
use crate::error::VmError;
use crate::collections::{copy_chars, store_field, object_fields, is_record_ref, without_keys, map_of, map_without};

verus! {

/// The key that constant `c` stands for over heap `h`.
pub open spec fn key_of(h: Seq<HeapObj>, c: Value) -> Seq<char> {
    match c {
        Value::Obj(i) => if i < h.len() {
            match h[i as int] {
                HeapObj::Str(s) => s@,
                _ => Seq::<char>::empty(),
            }
        } else {
            Seq::<char>::empty()
        },
        _ => Seq::<char>::empty(),
    }
}

/// Reads the key that constant `c` stands for.
pub fn const_key(c: Value, heap: &Heap) -> (k: Vec<char>)
    ensures
        k@ == key_of(heap@, c),
{
    match c {
        Value::Obj(i) => match heap.get(i) {
            Some(HeapObj::Str(s)) => copy_chars(s),
            _ => Vec::new(),
        },
        _ => Vec::new(),
    }
}

/// The first `n` key and value pairs of an object literal whose operands
/// start at `ip`: pair `k` is the constant numbered by unit `ip + 1 + 2k`
/// and the register in the high byte of unit `ip + 2 + 2k`.
pub open spec fn literal_pairs(
    code: Seq<u16>,
    ip: int,
    n: nat,
    regs: Seq<Value>,
    base: int,
    consts: Seq<Value>,
    h: Seq<HeapObj>,
) -> Seq<(Seq<char>, Value)>
    decreases n,
{
    if n == 0 {
        Seq::empty()
    } else {
        let k = n - 1;
        literal_pairs(code, ip, (n - 1) as nat, regs, base, consts, h).push((
            key_of(h, consts[code[ip + 1 + 2 * k] as int]),
            regs[base + code[ip + 2 + 2 * k] / 256],
        ))
    }
}

/// The fields of an object that sets each pair in turn: a repeated key
/// keeps its first place and takes the later value.
pub open spec fn set_all(ps: Seq<(Seq<char>, Value)>) -> Seq<(Seq<char>, Value)>
    decreases ps.len(),
{
    if ps.len() == 0 {
        Seq::empty()
    } else {
        set_field(set_all(ps.drop_last()), ps.last().0, ps.last().1)
    }
}

/// An object literal whose keys are all different has exactly its pairs as
/// fields, in the order written.
pub proof fn lemma_distinct_literal_keeps_pairs(ps: Seq<(Seq<char>, Value)>)
    requires
        keys_distinct(ps),
    ensures
        set_all(ps) == ps,
    decreases ps.len(),
{
    if ps.len() > 0 {
        let init = ps.drop_last();
        assert(keys_distinct(init)) by {
            assert forall|i: int, j: int| 0 <= i < init.len() && 0 <= j < init.len() && i != j
                implies init[i].0 != init[j].0 by {
                assert(init[i] == ps[i] && init[j] == ps[j]);
            }
        }
        lemma_distinct_literal_keeps_pairs(init);
        assert(!(exists|i: int| 0 <= i < init.len() && init[i].0 == ps.last().0)) by {
            assert forall|i: int| 0 <= i < init.len() implies init[i].0 != ps.last().0 by {
                assert(init[i] == ps[i]);
            }
        }
        assert(init.push(ps.last()) =~= ps);
    }
}

/// An object literal at `ip` names only code units, constants and
/// registers that exist.
pub open spec fn literal_ok(code: Seq<u16>, ip: int, nregs: int, base: int, nconsts: int) -> bool {
    let n = code[ip] % 256;
    &&& ip < code.len()
    &&& ip + 1 + 2 * n <= code.len()
    &&& base + code[ip] / 256 < nregs
    &&& forall|k: int| 0 <= k < n ==> #[trigger] code[ip + 1 + 2 * k] < nconsts && base + code[ip + 2 + 2 * k] / 256 < nregs
}

/// An object literal at `ip` took registers `regs0` and heap `h0` to `regs1`
/// and `h1`: a new object with the pairs' fields, set in order, and the
/// destination register referring to it.
pub open spec fn literal_built(
    code: Seq<u16>,
    ip: int,
    regs0: Seq<Value>,
    regs1: Seq<Value>,
    base: int,
    consts: Seq<Value>,
    h0: Seq<HeapObj>,
    h1: Seq<HeapObj>,
) -> bool {
    &&& h1.len() == h0.len() + 1
    &&& h1.take(h0.len() as int) == h0
    &&& h1.last() matches HeapObj::Object(fs)
        && fields_view(fs@) == set_all(literal_pairs(code, ip, (code[ip] % 256) as nat, regs0, base, consts, h0))
    &&& regs1 == regs0.update(base + code[ip] / 256, Value::Obj(h0.len() as usize))
}

/// Builds an object literal: the operand word names the destination
/// register (high byte) and the number of pairs (low byte); each pair is a
/// constant's number and a word naming the value's register. The new object
/// has the pairs' fields, set in order, and the destination register refers
/// to it.
pub fn build_object(
    code: &Vec<u16>,
    ip: &mut usize,
    regs: &mut Vec<Value>,
    base: usize,
    consts: &Vec<Value>,
    heap: &mut Heap,
)
    requires
        literal_ok(code@, *old(ip) as int, old(regs)@.len() as int, base as int, consts@.len() as int),
        old(heap).wf(),
    ensures
        *final(ip) == *old(ip) + 1 + 2 * (code@[*old(ip) as int] % 256),
        final(heap).wf(),
        literal_built(code@, *old(ip) as int, old(regs)@, final(regs)@, base as int, consts@, old(heap)@, final(heap)@),
{
    let ghost ip0 = *ip as int;
    let code_len = code.len();
    let reg_count = regs.len();
    let const_count = consts.len();
    let w = code[*ip];
    *ip = *ip + 1;
    let dest = crate::dispatch::hi(w);
    let count = crate::dispatch::lo(w);
    let mut fs: Vec<Field> = Vec::new();
    let mut k: usize = 0;
    while k < count
        invariant
            k <= count,
            count == code@[ip0] % 256,
            literal_ok(code@, ip0, reg_count as int, base as int, const_count as int),
            code@.len() == code_len,
            regs@.len() == reg_count,
            consts@.len() == const_count,
            *ip == ip0 + 1 + 2 * k,
            keys_distinct(fields_view(fs@)),
            fields_view(fs@) == set_all(literal_pairs(code@, ip0, k as nat, regs@, base as int, consts@, heap@)),
        decreases count - k,
    {
        assert(code@[ip0 + 1 + 2 * k] < const_count && base + code@[ip0 + 2 + 2 * k] / 256 < reg_count);
        let c = consts[code[*ip] as usize];
        let key = const_key(c, heap);
        let vw = code[*ip + 1];
        let v = regs[base + crate::dispatch::hi(vw)];
        *ip = *ip + 2;
        store_field(&mut fs, &key, v);
        proof {
            let ps = literal_pairs(code@, ip0, (k + 1) as nat, regs@, base as int, consts@, heap@);
            assert(ps.drop_last() == literal_pairs(code@, ip0, k as nat, regs@, base as int, consts@, heap@));
        }
        k = k + 1;
    }
    let ghost before = heap@;
    let obj = heap.allocate(HeapObj::Object(fs));
    assert(heap@.take(before.len() as int) =~= before);
    regs.set(base + dest, obj);
}

/// The fields that pair each name of a shape with the value at the same
/// position.
pub open spec fn shaped_fields(names: Seq<Seq<char>>, values: Seq<Value>) -> Seq<(Seq<char>, Value)> {
    Seq::new(names.len(), |i: int| (names[i], values[i]))
}

/// Every shape names each property once.
pub open spec fn shapes_ok(shapes: Seq<Vec<Vec<char>>>) -> bool {
    forall|s: int, i: int, j: int| 0 <= s < shapes.len() && 0 <= i < shapes[s]@.len() && 0 <= j < shapes[s]@.len() && i != j
        ==> #[trigger] shapes[s]@[i]@ != #[trigger] shapes[s]@[j]@
}

/// The names of a shape.
pub open spec fn shape_names(shape: Vec<Vec<char>>) -> Seq<Seq<char>> {
    shape@.map_values(|n: Vec<char>| n@)
}

/// A shaped object or record at `ip` names a shape, and registers, that
/// exist.
pub open spec fn shaped_ok(code: Seq<u16>, ip: int, nregs: int, base: int, shapes: Seq<Vec<Vec<char>>>) -> bool {
    &&& ip + 1 < code.len()
    &&& base + code[ip] / 256 < nregs
    &&& code[ip + 1] < shapes.len()
    &&& base + code[ip] % 256 + shapes[code[ip + 1] as int]@.len() <= nregs
}

/// A shaped object or record at `ip` took registers `regs0` and heap `h0`
/// to `regs1` and `h1`: a new object (a record when `is_record`) pairing
/// the shape's names with the values of consecutive registers, and the
/// destination register referring to it.
pub open spec fn shaped_built(
    code: Seq<u16>,
    ip: int,
    regs0: Seq<Value>,
    regs1: Seq<Value>,
    base: int,
    shapes: Seq<Vec<Vec<char>>>,
    is_record: bool,
    h0: Seq<HeapObj>,
    h1: Seq<HeapObj>,
) -> bool {
    let w = code[ip];
    let names = shape_names(shapes[code[ip + 1] as int]);
    let start = base + w % 256;
    let fields = shaped_fields(names, regs0.subrange(start, start + names.len()));
    &&& h1.len() == h0.len() + 1
    &&& h1.take(h0.len() as int) == h0
    &&& if is_record {
        h1.last() matches HeapObj::Record(fs) && fields_view(fs@) == fields
    } else {
        h1.last() matches HeapObj::Object(fs) && fields_view(fs@) == fields
    }
    &&& regs1 == regs0.update(base + w / 256, Value::Obj(h0.len() as usize))
}

/// Builds an object (or a record) from a shape: the operand word names the
/// destination register (high byte) and the first value's register (low
/// byte), the next unit the shape. The new object pairs the shape's names
/// with the values of consecutive registers.
pub fn build_shaped(
    code: &Vec<u16>,
    ip: &mut usize,
    regs: &mut Vec<Value>,
    base: usize,
    shapes: &Vec<Vec<Vec<char>>>,
    is_record: bool,
    heap: &mut Heap,
)
    requires
        shaped_ok(code@, *old(ip) as int, old(regs)@.len() as int, base as int, shapes@),
        shapes_ok(shapes@),
        old(heap).wf(),
    ensures
        *final(ip) == *old(ip) + 2,
        final(heap).wf(),
        shaped_built(code@, *old(ip) as int, old(regs)@, final(regs)@, base as int, shapes@, is_record, old(heap)@, final(heap)@),
{
    let ghost ip0 = *ip as int;
    let code_len = code.len();
    let reg_count = regs.len();
    let w = code[*ip];
    let shape_idx = code[*ip + 1] as usize;
    *ip = *ip + 2;
    let dest = crate::dispatch::hi(w);
    let start = base + crate::dispatch::lo(w);
    let shape = &shapes[shape_idx];
    let ghost names = shape_names(*shape);
    let ghost values = regs@.subrange(start as int, start + names.len());
    let mut fs: Vec<Field> = Vec::new();
    let mut i: usize = 0;
    while i < shape.len()
        invariant
            i <= shape@.len(),
            names == shape_names(*shape),
            regs@.len() == reg_count,
            start + shape@.len() <= reg_count,
            values == regs@.subrange(start as int, start + names.len()),
            fields_view(fs@) == shaped_fields(names, values).take(i as int),
            forall|a: int, b: int| 0 <= a < shape@.len() && 0 <= b < shape@.len() && a != b
                ==> #[trigger] shape@[a]@ != #[trigger] shape@[b]@,
        decreases shape@.len() - i,
    {
        let key = copy_chars(&shape[i]);
        let at = start + i;
        let v = regs[at];
        let ghost prev = fields_view(fs@);
        fs.push(Field { key, value: v });
        assert(names[i as int] == shape@[i as int]@);
        assert(values[i as int] == v);
        assert(fields_view(fs@) =~= prev.push((names[i as int], values[i as int])));
        assert(fields_view(fs@) =~= shaped_fields(names, values).take(i + 1));
        i = i + 1;
    }
    assert(fields_view(fs@) =~= shaped_fields(names, values));
    assert(keys_distinct(fields_view(fs@))) by {
        assert forall|a: int, b: int| 0 <= a < fields_view(fs@).len() && 0 <= b < fields_view(fs@).len() && a != b
            implies fields_view(fs@)[a].0 != fields_view(fs@)[b].0 by {
            assert(fields_view(fs@)[a].0 == shape@[a]@);
            assert(fields_view(fs@)[b].0 == shape@[b]@);
        }
    }
    let ghost before = heap@;
    let obj = if is_record {
        heap.allocate(HeapObj::Record(fs))
    } else {
        heap.allocate(HeapObj::Object(fs))
    };
    assert(heap@.take(before.len() as int) =~= before);
    regs.set(base + dest, obj);
}

/// The first `n` excluded keys of a rest pattern whose key numbers start at
/// unit `at`.
pub open spec fn rest_keys(code: Seq<u16>, at: int, n: nat, consts: Seq<Value>, h: Seq<HeapObj>) -> Seq<Seq<char>>
    decreases n,
{
    if n == 0 {
        Seq::empty()
    } else {
        rest_keys(code, at, (n - 1) as nat, consts, h).push(key_of(h, consts[code[at + n - 1] as int]))
    }
}

/// A rest pattern at `ip` names only code units, constants and registers
/// that exist.
pub open spec fn rest_ok(code: Seq<u16>, ip: int, nregs: int, base: int, nconsts: int) -> bool {
    &&& ip + 1 < code.len()
    &&& ip + 2 + code[ip + 1] / 256 <= code.len()
    &&& base + code[ip] / 256 < nregs
    &&& base + code[ip] % 256 < nregs
    &&& forall|k: int| 0 <= k < code[ip + 1] / 256 ==> #[trigger] code[ip + 2 + k] < nconsts
}

/// A rest pattern at `ip` took registers `regs0` and heap `h0` to `regs1`
/// and `h1` and reported `r`.
pub open spec fn rest_done(
    code: Seq<u16>,
    ip: int,
    regs0: Seq<Value>,
    regs1: Seq<Value>,
    base: int,
    consts: Seq<Value>,
    h0: Seq<HeapObj>,
    h1: Seq<HeapObj>,
    r: Result<(), VmError>,
) -> bool {
    let w = code[ip];
    let src = regs0[base + w % 256];
    let ex = rest_keys(code, ip + 2, (code[ip + 1] / 256) as nat, consts, h0);
    match object_fields(h0, src) {
        Some(fs) => {
            &&& r is Ok
            &&& h1.len() == h0.len() + 1
            &&& h1.take(h0.len() as int) == h0
            &&& if is_record_ref(h0, src) {
                h1.last() matches HeapObj::Record(rs) && fields_view(rs@) == without_keys(fs, ex)
            } else {
                h1.last() matches HeapObj::Object(rs) && fields_view(rs@) == without_keys(fs, ex)
            }
            &&& regs1 == regs0.update(base + w / 256, Value::Obj(h0.len() as usize))
        },
        None => match map_of(h0, src) {
            Some(es) => match map_without(h0, es, ex) {
                Some(kept) => {
                    &&& r is Ok
                    &&& h1.len() == h0.len() + 1
                    &&& h1.take(h0.len() as int) == h0
                    &&& h1.last() matches HeapObj::ValueMap(m) && m@ == kept
                    &&& regs1 == regs0.update(base + w / 256, Value::Obj(h0.len() as usize))
                },
                None => r == Err::<(), VmError>(VmError::Deferred) && h1 == h0 && regs1 == regs0,
            },
            None => {
                &&& r == Err::<(), VmError>(VmError::Runtime(crate::error::RuntimeError::NotAnObject {
                    object_op: crate::error::ObjectOp::Rest,
                }))
                &&& h1 == h0
                &&& regs1 == regs0
            },
        },
    }
}

/// The rest pattern of object destructuring: the operand word names the
/// destination register (high byte) and the source object's (low byte); the
/// next unit's high byte counts the keys to leave out, whose constants'
/// numbers follow. The destination receives a new object (a record for a
/// record) with the other fields, in their order, or a new map with the
/// entries whose key's text is not left out; any other source is an error
/// and writes nothing.
pub fn object_rest_op(
    code: &Vec<u16>,
    ip: &mut usize,
    regs: &mut Vec<Value>,
    base: usize,
    consts: &Vec<Value>,
    heap: &mut Heap,
) -> (r: Result<(), VmError>)
    requires
        rest_ok(code@, *old(ip) as int, old(regs)@.len() as int, base as int, consts@.len() as int),
        old(heap).wf(),
    ensures
        *final(ip) == *old(ip) + 2 + code@[*old(ip) + 1] / 256,
        final(heap).wf(),
        rest_done(code@, *old(ip) as int, old(regs)@, final(regs)@, base as int, consts@, old(heap)@, final(heap)@, r),
{
    let ghost ip0 = *ip as int;
    let code_len = code.len();
    let reg_count = regs.len();
    let const_count = consts.len();
    let w1 = code[*ip];
    let w2 = code[*ip + 1];
    *ip = *ip + 2;
    let dest = crate::dispatch::hi(w1);
    let src = crate::dispatch::lo(w1);
    let skip = crate::dispatch::hi(w2);
    let mut keys: Vec<Vec<char>> = Vec::new();
    let mut k: usize = 0;
    while k < skip
        invariant
            k <= skip,
            skip == code@[ip0 + 1] / 256,
            rest_ok(code@, ip0, reg_count as int, base as int, const_count as int),
            code@.len() == code_len,
            consts@.len() == const_count,
            *ip == ip0 + 2 + k,
            keys@.map_values(|c: Vec<char>| c@) == rest_keys(code@, ip0 + 2, k as nat, consts@, heap@),
        decreases skip - k,
    {
        assert(code@[ip0 + 2 + k] < const_count);
        let c = consts[code[*ip] as usize];
        let key = const_key(c, heap);
        keys.push(key);
        *ip = *ip + 1;
        assert(keys@.map_values(|c: Vec<char>| c@) =~= rest_keys(code@, ip0 + 2, (k + 1) as nat, consts@, heap@));
        k = k + 1;
    }
    let obj = regs[base + src];
    match crate::collections::object_rest(obj, &keys, heap) {
        Ok(v) => {
            regs.set(base + dest, v);
            Ok(())
        },
        Err(e) => Err(e),
    }
}

/// The object literal opcodes.
#[derive(Clone, Copy, PartialEq, Eq, Structural, Debug)]
pub enum ObjectOp {
    BuildObject,
    BuildObjectWithShape,
    BuildRecord,
    ObjectRest,
}

/// What an object instruction at `ip` needs.
pub open spec fn object_op_ok(
    op: ObjectOp,
    code: Seq<u16>,
    ip: int,
    nregs: int,
    base: int,
    nconsts: int,
    shapes: Seq<Vec<Vec<char>>>,
) -> bool {
    match op {
        ObjectOp::BuildObject => literal_ok(code, ip, nregs, base, nconsts),
        ObjectOp::BuildObjectWithShape | ObjectOp::BuildRecord => shaped_ok(code, ip, nregs, base, shapes) && shapes_ok(shapes),
        ObjectOp::ObjectRest => rest_ok(code, ip, nregs, base, nconsts),
    }
}

/// The position after an object instruction's operands at `ip`.
pub open spec fn object_end(op: ObjectOp, code: Seq<u16>, ip: int) -> int {
    match op {
        ObjectOp::BuildObject => ip + 1 + 2 * (code[ip] % 256),
        ObjectOp::BuildObjectWithShape | ObjectOp::BuildRecord => ip + 2,
        ObjectOp::ObjectRest => ip + 2 + code[ip + 1] / 256,
    }
}

/// One object instruction at `ip` took registers `regs0` and heap `h0` to
/// `regs1` and `h1` and reported `r`.
pub open spec fn object_step(
    op: ObjectOp,
    code: Seq<u16>,
    ip: int,
    regs0: Seq<Value>,
    regs1: Seq<Value>,
    base: int,
    consts: Seq<Value>,
    shapes: Seq<Vec<Vec<char>>>,
    h0: Seq<HeapObj>,
    h1: Seq<HeapObj>,
    r: Result<(), VmError>,
) -> bool {
    match op {
        ObjectOp::BuildObject => r is Ok && literal_built(code, ip, regs0, regs1, base, consts, h0, h1),
        ObjectOp::BuildObjectWithShape => r is Ok && shaped_built(code, ip, regs0, regs1, base, shapes, false, h0, h1),
        ObjectOp::BuildRecord => r is Ok && shaped_built(code, ip, regs0, regs1, base, shapes, true, h0, h1),
        ObjectOp::ObjectRest => rest_done(code, ip, regs0, regs1, base, consts, h0, h1, r),
    }
}

/// Executes one object instruction whose operands start at `ip`.
pub fn exec_object_op(
    op: ObjectOp,
    code: &Vec<u16>,
    ip: &mut usize,
    regs: &mut Vec<Value>,
    base: usize,
    consts: &Vec<Value>,
    shapes: &Vec<Vec<Vec<char>>>,
    heap: &mut Heap,
) -> (r: Result<(), VmError>)
    requires
        object_op_ok(op, code@, *old(ip) as int, old(regs)@.len() as int, base as int, consts@.len() as int, shapes@),
        old(heap).wf(),
    ensures
        *final(ip) == object_end(op, code@, *old(ip) as int),
        final(heap).wf(),
        object_step(op, code@, *old(ip) as int, old(regs)@, final(regs)@, base as int, consts@, shapes@, old(heap)@, final(heap)@, r),
{
    match op {
        ObjectOp::BuildObject => {
            build_object(code, ip, regs, base, consts, heap);
            Ok(())
        },
        ObjectOp::BuildObjectWithShape => {
            build_shaped(code, ip, regs, base, shapes, false, heap);
            Ok(())
        },
        ObjectOp::BuildRecord => {
            build_shaped(code, ip, regs, base, shapes, true, heap);
            Ok(())
        },
        ObjectOp::ObjectRest => object_rest_op(code, ip, regs, base, consts, heap),
    }
}

} // verus!
