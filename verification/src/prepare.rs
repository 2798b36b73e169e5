//! Preparing a call: what calling a value does with the staged arguments
//! before anything runs. A closure gets a frame (its arguments fitted to
//! its parameters), or is handed on as a generator or an async task; a host
//! function gets the argument window; a bound method puts its receiver in
//! the callee slot; a class allocates its instance and runs its
//! constructor; an enum variant with a payload builds the value.
//!
//! The staging area holds the call's values: its last `arg_count` are the
//! window, whose first slot is the callee slot.
use vstd::prelude::*;
use crate::value::Value;
use crate::heap::{Heap, HeapObj, Field, ProtoInfo, fields_view, key_index};
use crate::error::RuntimeError;
use crate::classes::{ClassData, MemberTable, table};
use crate::calls::{
    bundle_rest_args, bundled_count, bundled_staging, bundled_items, heap_grown, stage_window,
};

verus! {

/// What a prepared call does next.
#[derive(Debug)]
pub enum Prepared {
    /// Run closure `closure` (a heap object number) in a new frame whose
    /// parameters come from `window`, with `class` as its current class.
    Frame { closure: usize, window: Vec<Value>, class: Option<usize> },
    /// As `Frame`, for a constructor building `instance`.
    Constructor { closure: usize, window: Vec<Value>, class: Option<usize>, instance: Value },
    /// Build a generator of `closure` over `args`.
    Generator { closure: usize, args: Vec<Value>, class: Option<usize> },
    /// Build an async task of `closure` over `args`.
    Task { closure: usize, args: Vec<Value>, class: Option<usize> },
    /// Call host function `func` on the window of the last `arg_count`
    /// staged values, whose first slot holds the receiver: the whole window
    /// is passed, receiver first.
    BoundNative { func: u64, arg_count: usize },
    /// Call host function `func` on the window of the last `arg_count`
    /// staged values, whose first slot is the callee slot: the window after
    /// that slot is passed.
    RawNative { func: u64, arg_count: usize },
    /// Call host constructor `func` on `args` to build `instance`.
    NativeConstructor { func: u64, args: Vec<Value>, instance: Value },
    /// The call's value is ready: push it.
    PushValue(Value),
}

/// The staged values with `recv` in the callee slot of the window of `ac`
/// values (pushed as the only value when nothing is staged).
pub open spec fn placed(st: Seq<Value>, ac: nat, recv: Value) -> Seq<Value> {
    if st.len() == 0 { seq![recv] } else { st.update(st.len() - ac, recv) }
}

/// The window's size once the receiver is placed.
pub open spec fn placed_count(st: Seq<Value>, ac: nat) -> nat {
    if st.len() == 0 { 1 } else { ac }
}

/// The last `ac` staged values, or all of them when fewer are staged.
pub open spec fn window_of(st: Seq<Value>, ac: nat) -> Seq<Value> {
    st.skip(if ac >= st.len() { 0 } else { st.len() - ac })
}

/// The heap object that `v` refers to, if any.
pub open spec fn obj_of(h: Seq<HeapObj>, v: Value) -> Option<HeapObj> {
    match v {
        Value::Obj(k) => if k < h.len() { Some(h[k as int]) } else { None },
        _ => None,
    }
}

/// The constructor of class `c`: its method named `constructor`.
pub open spec fn constructor_of(c: ClassData) -> Option<Value> {
    match key_index(table(c, MemberTable::Methods), seq!['c', 'o', 'n', 's', 't', 'r', 'u', 'c', 't', 'o', 'r']) {
        Some(j) => Some(table(c, MemberTable::Methods)[j].1),
        None => None,
    }
}

/// What the call needs: a callee that refers to an object names one of the
/// heap, the window is staged, a receiver or instance has a callee slot to
/// go to, and the staging area has room for a function's parameters.
pub open spec fn call_ok(h: Seq<HeapObj>, callee: Value, ac: nat, st: Seq<Value>) -> bool {
    &&& ac <= st.len()
    &&& st.len() + 300 <= usize::MAX
    &&& callee matches Value::Obj(i) ==> i < h.len()
    &&& (obj_of(h, callee) matches Some(HeapObj::BoundMethod(_)) || obj_of(h, callee) matches Some(HeapObj::Class(_)))
        ==> (st.len() == 0 || ac >= 1)
}

/// A closure call of `p` (object `k`) with window size `ac` over staging
/// `st` and heap `h0` (the rest array, when there is one, goes to the heap's
/// end), current class `class`, building `instance` when it is a
/// constructor's: the frame, generator or task, and the staging and heap
/// after it.
pub open spec fn closure_call(
    p: ProtoInfo,
    k: usize,
    ac: nat,
    st: Seq<Value>,
    h0: Seq<HeapObj>,
    class: Option<usize>,
    instance: Option<Value>,
    fit_first: bool,
    h1: Seq<HeapObj>,
    st1: Seq<Value>,
    r: Result<Prepared, RuntimeError>,
) -> bool {
    if p.is_generator || p.is_async {
        let (stb, acb) = if fit_first {
            (bundled_staging(p.arity as nat, p.has_rest, ac, st, h0.len() as int), bundled_count(p.arity as nat, p.has_rest, ac))
        } else {
            (st, ac)
        };
        &&& (if fit_first { heap_grown(h0, h1, bundled_items(p.arity as nat, p.has_rest, ac, st)) } else { h1 == h0 })
        &&& st1 == stb.take(stb.len() - acb)
        &&& if p.is_generator {
            r matches Ok(Prepared::Generator { closure, args, class: c })
                && closure == k && args@ == stb.skip(stb.len() - acb) && c == class
        } else {
            r matches Ok(Prepared::Task { closure, args, class: c })
                && closure == k && args@ == stb.skip(stb.len() - acb) && c == class
        }
    } else {
        let stb = bundled_staging(p.arity as nat, p.has_rest, ac, st, h0.len() as int);
        let acb = bundled_count(p.arity as nat, p.has_rest, ac);
        &&& heap_grown(h0, h1, bundled_items(p.arity as nat, p.has_rest, ac, st))
        &&& st1 == stb
        &&& match instance {
            Some(inst) => r matches Ok(Prepared::Constructor { closure, window, class: c, instance: i2 })
                && closure == k && window@ == window_of(stb, acb) && c == class && i2 == inst,
            None => r matches Ok(Prepared::Frame { closure, window, class: c })
                && closure == k && window@ == window_of(stb, acb) && c == class,
        }
    }
}

/// `h1` starts with `h0` and then a new instance of class `c` with no
/// fields.
pub open spec fn new_instance(h0: Seq<HeapObj>, h1: Seq<HeapObj>, c: usize) -> bool {
    &&& h1.len() > h0.len()
    &&& h1.take(h0.len() as int) == h0
    &&& h1[h0.len() as int] matches HeapObj::Instance(d) && d.class == c && d.fields@.len() == 0
}

/// The fields of an enum payload: each field name with the argument at its
/// place, `null` past the arguments.
pub open spec fn payload_fields(names: Seq<Vec<char>>, args: Seq<Value>) -> Seq<(Seq<char>, Value)> {
    Seq::new(names.len(), |j: int| (names[j]@, if j < args.len() { args[j] } else { Value::Null }))
}

/// What calling `callee` with a window of `ac` values does: the heap `h1`,
/// staging `st1` and result `r` it leaves.
pub open spec fn call_prepared(
    h0: Seq<HeapObj>,
    callee: Value,
    ac: nat,
    st: Seq<Value>,
    h1: Seq<HeapObj>,
    st1: Seq<Value>,
    r: Result<Prepared, RuntimeError>,
) -> bool {
    match obj_of(h0, callee) {
        Some(HeapObj::Closure(p)) => closure_call(p, callee->Obj_0, ac, st, h0, None, None, true, h1, st1, r),
        Some(HeapObj::NativeFn(f)) => h1 == h0 && st1 == st
            && (r matches Ok(Prepared::RawNative { func, arg_count }) && func == f && arg_count == ac),
        Some(HeapObj::BoundMethod(bm)) => {
            let stp = placed(st, ac, bm.receiver);
            let acp = placed_count(st, ac);
            match obj_of(h0, bm.method) {
                Some(HeapObj::NativeFn(f)) => h1 == h0 && st1 == stp
                    && (r matches Ok(Prepared::BoundNative { func, arg_count }) && func == f && arg_count == acp),
                Some(HeapObj::Closure(p)) => closure_call(
                    p, bm.method->Obj_0, acp, stp, h0, Some(bm.owner),
                    if p.is_constructor { Some(bm.receiver) } else { None }, false, h1, st1, r,
                ),
                _ => h1 == h0 && st1 == st && r == Err::<Prepared, RuntimeError>(RuntimeError::InvalidBoundMethod),
            }
        },
        Some(HeapObj::Class(c)) => {
            let i = callee->Obj_0;
            let inst = Value::Obj(h0.len() as usize);
            let hm: int = h0.len() as int;
            let stp = placed(st, ac, inst);
            let acp = placed_count(st, ac);
            match constructor_of(c) {
                Some(ctor) => match obj_of(h0, ctor) {
                    Some(HeapObj::Closure(p)) => {
                        let stb = bundled_staging(p.arity as nat, p.has_rest, acp, stp, hm + 1);
                        let acb = bundled_count(p.arity as nat, p.has_rest, acp);
                        &&& new_instance(h0, h1, i)
                        &&& heap_grown(h1.take(hm + 1), h1, bundled_items(p.arity as nat, p.has_rest, acp, stp))
                        &&& st1 == stb
                        &&& r matches Ok(Prepared::Constructor { closure, window, class, instance })
                            && closure == ctor->Obj_0 && window@ == window_of(stb, acb) && class == Some(i) && instance == inst
                    },
                    Some(HeapObj::NativeFn(f)) => {
                        &&& new_instance(h0, h1, i) && h1.len() == hm + 1
                        &&& st1 == stp.take(stp.len() - acp)
                        &&& r matches Ok(Prepared::NativeConstructor { func, args, instance })
                            && func == f && args@ == stp.skip(stp.len() - acp) && instance == inst
                    },
                    _ => new_instance(h0, h1, i) && h1.len() == hm + 1 && st1 == Seq::<Value>::empty() && (r matches Ok(Prepared::PushValue(v)) && v == inst),
                },
                None => new_instance(h0, h1, i) && h1.len() == hm + 1 && st1 == Seq::<Value>::empty() && (r matches Ok(Prepared::PushValue(v)) && v == inst),
            }
        },
        Some(HeapObj::EnumVariant(e)) => {
            let args = if st.len() > 0 { st.drop_first() } else { st };
            let n = h0.len();
            &&& st1 == Seq::<Value>::empty()
            &&& if e.fields@.len() == 0 && args.len() == 0 {
                h1 == h0 && (r matches Ok(Prepared::PushValue(v)) && v == callee)
            } else if e.fields@.len() == 0 && args.len() == 1 {
                &&& h1.len() == n + 1
                &&& h1.take(n as int) == h0
                &&& h1[n as int] matches HeapObj::EnumVariant(x) && x.enum_name@ == e.enum_name@ && x.tag == e.tag
                    && x.class_id == e.class_id && x.fields@.len() == 0 && x.payload == args[0]
                &&& r matches Ok(Prepared::PushValue(v)) && v == Value::Obj(n as usize)
            } else {
                &&& h1.len() == n + 2
                &&& h1.take(n as int) == h0
                &&& (if e.fields@.len() > 0 {
                    h1[n as int] matches HeapObj::Object(fs) && fields_view(fs@) == payload_fields(e.fields@, args)
                } else {
                    h1[n as int] matches HeapObj::Array(a) && a@ == args
                })
                &&& h1[n + 1int] matches HeapObj::EnumVariant(x) && x.enum_name@ == e.enum_name@ && x.tag == e.tag
                    && x.class_id == e.class_id && x.fields@.len() == e.fields@.len()
                    && (forall|j: int| 0 <= j < e.fields@.len() ==> #[trigger] x.fields@[j]@ == e.fields@[j]@)
                    && x.payload == Value::Obj(n as usize)
                &&& r matches Ok(Prepared::PushValue(v)) && v == Value::Obj((n + 1) as usize)
            }
        },
        _ => h1 == h0 && st1 == st && r == Err::<Prepared, RuntimeError>(
            if callee is Null { RuntimeError::NullCallee } else { RuntimeError::NotCallable { callee } },
        ),
    }
}

/// Puts `recv` in the callee slot of the window of `ac` staged values.
fn place_receiver(staging: &mut Vec<Value>, ac: usize, recv: Value) -> (n: usize)
    requires
        old(staging)@.len() == 0 || 1 <= ac <= old(staging)@.len(),
    ensures
        final(staging)@ == placed(old(staging)@, ac as nat, recv),
        n == placed_count(old(staging)@, ac as nat),
{
    if staging.len() == 0 {
        staging.push(recv);
        assert(staging@ =~= seq![recv]);
        1
    } else {
        let at = staging.len() - ac;
        staging.set(at, recv);
        ac
    }
}

/// Takes the last `n` staged values off.
fn drain_tail(staging: &mut Vec<Value>, n: usize) -> (args: Vec<Value>)
    requires
        n <= old(staging)@.len(),
    ensures
        args@ == old(staging)@.skip(old(staging)@.len() - n),
        final(staging)@ == old(staging)@.take(old(staging)@.len() - n),
{
    let start = staging.len() - n;
    let args = stage_window(staging, n);
    staging.truncate(start);
    args
}

/// Fitting leaves at least as many staged values as the window it passes.
proof fn lemma_bundled_fits(arity: nat, has_rest: bool, ac: nat, st: Seq<Value>, at: int)
    requires
        ac <= st.len(),
    ensures
        bundled_count(arity, has_rest, ac) <= bundled_staging(arity, has_rest, ac, st, at).len(),
{
}

/// A call of closure `k`, whose function is `p` (see [`closure_call`]).
fn call_closure(
    p: ProtoInfo,
    k: usize,
    ac: usize,
    staging: &mut Vec<Value>,
    heap: &mut Heap,
    class: Option<usize>,
    instance: Option<Value>,
    fit_first: bool,
) -> (r: Result<Prepared, RuntimeError>)
    requires
        ac <= old(staging)@.len(),
        old(staging)@.len() + 300 <= usize::MAX,
        p.arity <= 256,
        old(heap).wf(),
    ensures
        final(heap).wf(),
        closure_call(p, k, ac as nat, old(staging)@, old(heap)@, class, instance, fit_first, final(heap)@, final(staging)@, r),
{
    let ghost st0 = staging@;
    let ghost h0 = heap@;
    proof {
        lemma_bundled_fits(p.arity as nat, p.has_rest, ac as nat, st0, h0.len() as int);
    }
    let mut acb = ac;
    if p.is_generator || p.is_async {
        if fit_first {
            bundle_rest_args(p.arity, p.has_rest, &mut acb, staging, heap);
        }
        let args = drain_tail(staging, acb);
        if p.is_generator {
            Ok(Prepared::Generator { closure: k, args, class })
        } else {
            Ok(Prepared::Task { closure: k, args, class })
        }
    } else {
        bundle_rest_args(p.arity, p.has_rest, &mut acb, staging, heap);
        let window = stage_window(staging, acb);
        match instance {
            Some(inst) => Ok(Prepared::Constructor { closure: k, window, class, instance: inst }),
            None => Ok(Prepared::Frame { closure: k, window, class }),
        }
    }
}

/// What a callable value is, for a call.
enum CallTarget {
    Closure(ProtoInfo, usize),
    Native(u64),
    Other,
}

/// What `v` refers to, as something to call.
fn target_of(heap: &Heap, v: Value) -> (t: CallTarget)
    requires
        heap.wf(),
    ensures
        match obj_of(heap@, v) {
            Some(HeapObj::Closure(p)) => t == CallTarget::Closure(p, v->Obj_0) && p.arity <= 256,
            Some(HeapObj::NativeFn(f)) => t == CallTarget::Native(f),
            _ => t == CallTarget::Other,
        },
{
    match v {
        Value::Obj(k) => match heap.get(k) {
            Some(HeapObj::Closure(p)) => {
                proof {
                    assert(crate::heap::obj_ok(heap@[k as int]));
                }
                CallTarget::Closure(*p, k)
            },
            Some(HeapObj::NativeFn(f)) => CallTarget::Native(*f),
            _ => CallTarget::Other,
        },
        _ => CallTarget::Other,
    }
}

/// The name of a class's constructor.
fn constructor_name() -> (n: Vec<char>)
    ensures
        n@ == seq!['c', 'o', 'n', 's', 't', 'r', 'u', 'c', 't', 'o', 'r'],
{
    let n = vec!['c', 'o', 'n', 's', 't', 'r', 'u', 'c', 't', 'o', 'r'];
    assert(n@ =~= seq!['c', 'o', 'n', 's', 't', 'r', 'u', 'c', 't', 'o', 'r']);
    n
}

/// Prepares the call of `callee` with the window of the last `arg_count`
/// staged values (see [`call_prepared`]).
pub fn prepare_call(callee: Value, arg_count: usize, staging: &mut Vec<Value>, heap: &mut Heap) -> (r: Result<Prepared, RuntimeError>)
    requires
        old(heap).wf(),
        call_ok(old(heap)@, callee, arg_count as nat, old(staging)@),
    ensures
        final(heap).wf(),
        call_prepared(old(heap)@, callee, arg_count as nat, old(staging)@, final(heap)@, final(staging)@, r),
{
    let ghost h0 = heap@;
    let ghost st0 = staging@;
    let i = match callee {
        Value::Obj(i) => i,
        Value::Null => return Err(RuntimeError::NullCallee),
        _ => return Err(RuntimeError::NotCallable { callee }),
    };
    let kind: u8 = match heap.get(i) {
        Some(HeapObj::Closure(_)) | Some(HeapObj::NativeFn(_)) => 0u8,
        Some(HeapObj::BoundMethod(_)) => 1u8,
        Some(HeapObj::Class(_)) => 2u8,
        Some(HeapObj::EnumVariant(_)) => 3u8,
        _ => 4u8,
    };
    if kind == 0 {
        match target_of(heap, callee) {
            CallTarget::Closure(p, k) => call_closure(p, k, arg_count, staging, heap, None, None, true),
            CallTarget::Native(f) => Ok(Prepared::RawNative { func: f, arg_count }),
            CallTarget::Other => Err(RuntimeError::NotCallable { callee }),
        }
    } else if kind == 1 {
        let bm = match heap.get(i) {
            Some(HeapObj::BoundMethod(bm)) => *bm,
            _ => return Err(RuntimeError::NotCallable { callee }),
        };
        match target_of(heap, bm.method) {
            CallTarget::Native(f) => {
                let n = place_receiver(staging, arg_count, bm.receiver);
                Ok(Prepared::BoundNative { func: f, arg_count: n })
            },
            CallTarget::Closure(p, k) => {
                let n = place_receiver(staging, arg_count, bm.receiver);
                let inst = if p.is_constructor { Some(bm.receiver) } else { None };
                call_closure(p, k, n, staging, heap, Some(bm.owner), inst, false)
            },
            CallTarget::Other => Err(RuntimeError::InvalidBoundMethod),
        }
    } else if kind == 2 {
        let name = constructor_name();
        let ctor: Option<Value> = match heap.get(i) {
            Some(HeapObj::Class(c)) => {
                proof {
                    assert(crate::heap::obj_ok(heap@[i as int]));
                }
                match crate::collections::find_field(&c.methods, &name) {
                    Some(j) => Some(c.methods[j].value),
                    None => None,
                }
            },
            _ => return Err(RuntimeError::NotCallable { callee }),
        };
        let t = match ctor {
            Some(v) => target_of(heap, v),
            None => CallTarget::Other,
        };
        let ghost before = heap@;
        let inst = heap.allocate(HeapObj::Instance(crate::heap::InstanceData { class: i, fields: Vec::new() }));
        assert(heap@.take(h0.len() as int) =~= h0);
        let ghost hm = heap@;
        match t {
            CallTarget::Closure(p, k) => {
                let n = place_receiver(staging, arg_count, inst);
                let mut acb = n;
                bundle_rest_args(p.arity, p.has_rest, &mut acb, staging, heap);
                assert(heap@.take(hm.len() as int) =~= hm);
                assert(heap@.take(h0.len() as int) =~= h0);
                assert(heap@[h0.len() as int] == hm[h0.len() as int]);
                let window = stage_window(staging, acb);
                Ok(Prepared::Constructor { closure: k, window, class: Some(i), instance: inst })
            },
            CallTarget::Native(f) => {
                let n = place_receiver(staging, arg_count, inst);
                let args = drain_tail(staging, n);
                Ok(Prepared::NativeConstructor { func: f, args, instance: inst })
            },
            CallTarget::Other => {
                staging.truncate(0);
                assert(staging@ =~= Seq::<Value>::empty());
                Ok(Prepared::PushValue(inst))
            },
        }
    } else if kind == 3 {
        call_variant(callee, i, staging, heap)
    } else {
        Err(RuntimeError::NotCallable { callee })
    }
}

/// Calling enum variant `i`: the arguments after the callee slot become its
/// payload (see [`call_prepared`]).
fn call_variant(callee: Value, i: usize, staging: &mut Vec<Value>, heap: &mut Heap) -> (r: Result<Prepared, RuntimeError>)
    requires
        old(heap).wf(),
        callee == Value::Obj(i),
        i < old(heap)@.len(),
        old(heap)@[i as int] is EnumVariant,
    ensures
        final(heap).wf(),
        call_prepared(old(heap)@, callee, 0, old(staging)@, final(heap)@, final(staging)@, r),
{
    let ghost h0 = heap@;
    let ghost st0 = staging@;
    let n_all = staging.len();
    let all = drain_tail(staging, n_all);
    assert(all@ =~= st0);
    assert(staging@ =~= Seq::<Value>::empty());
    let mut args: Vec<Value> = Vec::new();
    if all.len() > 0 {
        let mut k: usize = 1;
        while k < all.len()
            invariant
                1 <= k <= all@.len(),
                args@ == all@.subrange(1, k as int),
            decreases all@.len() - k,
        {
            args.push(all[k]);
            assert(all@.subrange(1, k + 1) =~= all@.subrange(1, k as int).push(all@[k as int]));
            k = k + 1;
        }
        assert(args@ =~= st0.drop_first());
    } else {
        assert(args@ =~= st0);
    }
    let (name, tag, class_id, names) = match heap.get(i) {
        Some(HeapObj::EnumVariant(e)) => {
            proof {
                assert(crate::heap::obj_ok(heap@[i as int]));
            }
            if e.fields.len() == 0 && args.len() == 0 {
                return Ok(Prepared::PushValue(callee));
            }
            (crate::collections::copy_chars(&e.enum_name), e.tag, e.class_id, crate::collections::copy_names(&e.fields))
        },
        _ => return Err(RuntimeError::NotCallable { callee }),
    };
    let ghost e0 = match h0[i as int] { HeapObj::EnumVariant(e) => e, _ => arbitrary() };
    assert(crate::heap::names_distinct(names@)) by {
        assert(crate::heap::obj_ok(h0[i as int]));
    }
    if names.len() == 0 && args.len() == 1 {
        let v = heap.allocate(HeapObj::EnumVariant(crate::heap::VariantData {
            enum_name: name,
            tag,
            payload: args[0],
            class_id,
            fields: names,
        }));
        assert(heap@.take(h0.len() as int) =~= h0);
        return Ok(Prepared::PushValue(v));
    }
    let payload_obj = if names.len() > 0 {
        let mut fs: Vec<Field> = Vec::new();
        let mut j: usize = 0;
        while j < names.len()
            invariant
                j <= names@.len(),
                fields_view(fs@) == payload_fields(names@, args@).take(j as int),
            decreases names@.len() - j,
        {
            let val = if j < args.len() { args[j] } else { Value::Null };
            let key = crate::collections::copy_chars(&names[j]);
            let ghost prev = fields_view(fs@);
            fs.push(Field { key, value: val });
            assert(fields_view(fs@) =~= prev.push((names@[j as int]@, val)));
            assert(fields_view(fs@) =~= payload_fields(names@, args@).take(j + 1));
            j = j + 1;
        }
        assert(fields_view(fs@) =~= payload_fields(names@, args@));
        assert(crate::heap::keys_distinct(fields_view(fs@)));
        HeapObj::Object(fs)
    } else {
        HeapObj::Array(args)
    };
    let ghost pobj = payload_obj;
    let pv = heap.allocate(payload_obj);
    let ghost h_mid = heap@;
    let v = heap.allocate(HeapObj::EnumVariant(crate::heap::VariantData {
        enum_name: name,
        tag,
        payload: pv,
        class_id,
        fields: names,
    }));
    assert(heap@.take(h0.len() as int) =~= h0);
    assert(heap@[h0.len() as int] == pobj);
    proof {
        let argsv = if st0.len() > 0 { st0.drop_first() } else { st0 };
        assert(args@ == argsv);
        assert(e0.fields@.len() == names@.len());
        assert(payload_fields(names@, args@) =~= payload_fields(e0.fields@, argsv));
        if names@.len() > 0 {
            assert(pobj matches HeapObj::Object(fs) && fields_view(fs@) == payload_fields(e0.fields@, argsv));
        } else {
            assert(pobj matches HeapObj::Array(a) && a@ == argsv);
        }
    }
    Ok(Prepared::PushValue(v))
}

} // verus!
