//! Calls as an instruction makes them: `f(args)` and `this.name(args)`.
//!
//! A call of a value prepares it (see [`crate::prepare`]); one that would
//! run a new frame deeper than the call depth limit fails instead. A method
//! call is first offered to the intrinsic methods; failing those, the
//! property `name` of `this` is read and called with `this` as its receiver,
//! in the slot after the callee, unless the method brings its own receiver
//! (a bound method), takes none (a host function, an enum variant, a closure
//! without `this`) or is a static member of a class.
use vstd::prelude::*;
use crate::value::Value;
use crate::heap::{Heap, HeapObj};
use crate::error::RuntimeError;
use crate::arith::str_of;
use crate::classes::BoundData;
use crate::collections::{is_array_ref, push_done, pop_done, chars_eq};
use crate::strings::{Intrinsic, intrinsic_method, string_answer};
use crate::props::{PropertyRead, ReadOutcome, property_read, get_property};
use crate::prepare::{Prepared, call_prepared, obj_of, prepare_call, window_of};

verus! {

/// The deepest that calls may nest.
pub open spec fn max_call_depth() -> nat {
    10000
}

/// Whether a prepared call runs a new frame.
pub open spec fn pushes_frame(r: Result<Prepared, RuntimeError>) -> bool {
    r matches Ok(Prepared::Frame { .. }) || r matches Ok(Prepared::Constructor { .. })
}

/// The call prepared as `r0` at call depth `depth` gives `r`.
pub open spec fn depth_checked(r0: Result<Prepared, RuntimeError>, depth: nat, r: Result<Prepared, RuntimeError>) -> bool {
    if pushes_frame(r0) && depth >= max_call_depth() {
        r == Err::<Prepared, RuntimeError>(RuntimeError::StackOverflow)
    } else {
        r == r0
    }
}

/// Whether `v` refers past the end of heap `h`.
pub open spec fn dangling(h: Seq<HeapObj>, v: Value) -> bool {
    v matches Value::Obj(k) && k >= h.len()
}

/// Calling `callee` on `window` at depth `depth` took heap `h0` to `h1`,
/// left `st1` staged and gave `r`.
pub open spec fn value_called(
    h0: Seq<HeapObj>,
    callee: Value,
    window: Seq<Value>,
    depth: nat,
    h1: Seq<HeapObj>,
    st1: Seq<Value>,
    r: Result<Prepared, RuntimeError>,
) -> bool {
    if dangling(h0, callee) {
        r == Err::<Prepared, RuntimeError>(RuntimeError::NotCallable { callee }) && h1 == h0 && st1 == window
    } else {
        exists|r0: Result<Prepared, RuntimeError>|
            #[trigger] call_prepared(h0, callee, window.len(), window, h1, st1, r0) && depth_checked(r0, depth, r)
    }
}

/// The call depth at which no new frame is pushed.
const MAX_CALL_DEPTH: usize = 10000;

/// Calls `callee` with the argument window `window` (whose first slot is
/// the callee slot), `depth` frames deep; `staging` is left as the prepared
/// call needs it.
pub fn call_value(callee: Value, window: &Vec<Value>, depth: usize, staging: &mut Vec<Value>, heap: &mut Heap) -> (r: Result<Prepared, RuntimeError>)
    requires
        old(heap).wf(),
        window@.len() + 300 <= usize::MAX,
    ensures
        final(heap).wf(),
        value_called(old(heap)@, callee, window@, depth as nat, final(heap)@, final(staging)@, r),
{
    staging.clear();
    let mut i: usize = 0;
    while i < window.len()
        invariant
            i <= window@.len(),
            staging@ == window@.take(i as int),
        decreases window@.len() - i,
    {
        staging.push(window[i]);
        i = i + 1;
        assert(staging@ =~= window@.take(i as int));
    }
    assert(staging@ =~= window@);
    if let Value::Obj(k) = callee {
        if k >= heap.len() {
            return Err(RuntimeError::NotCallable { callee });
        }
    }
    let ghost h0 = heap@;
    let ghost st0 = staging@;
    let r0 = prepare_call(callee, window.len(), staging, heap);
    let frame = match &r0 {
        Ok(Prepared::Frame { .. }) | Ok(Prepared::Constructor { .. }) => true,
        _ => false,
    };
    if frame && depth >= MAX_CALL_DEPTH {
        proof {
            assert(call_prepared(h0, callee, st0.len(), st0, heap@, staging@, r0));
        }
        return Err(RuntimeError::StackOverflow);
    }
    proof {
        assert(call_prepared(h0, callee, st0.len(), st0, heap@, staging@, r0));
    }
    r0
}

/// What a method call gives.
#[derive(Debug)]
pub enum MethodCall {
    /// An intrinsic method answered with this value.
    Answered(Value),
    /// The method is read by calling `getter` on `receiver`.
    CallGetter { getter: Value, receiver: Value },
    /// The method's call, prepared.
    Call(Prepared),
}

/// The intrinsic method of that name.
pub open spec fn intrinsic_named(n: Seq<char>) -> Option<Intrinsic> {
    if n == seq!['p', 'u', 's', 'h'] {
        Some(Intrinsic::Push)
    } else if n == seq!['p', 'o', 'p'] {
        Some(Intrinsic::Pop)
    } else if n == seq!['s', 't', 'a', 'r', 't', 's', 'W', 'i', 't', 'h'] {
        Some(Intrinsic::StartsWith)
    } else if n == seq!['e', 'n', 'd', 's', 'W', 'i', 't', 'h'] {
        Some(Intrinsic::EndsWith)
    } else if n == seq!['i', 'n', 'd', 'e', 'x', 'O', 'f'] {
        Some(Intrinsic::IndexOf)
    } else {
        None
    }
}

/// Whether intrinsic `m` answers on `this` with `args`: `push` with one
/// argument and `pop` with none on an array; a string method with one
/// string argument on a string.
pub open spec fn intrinsic_hit(h: Seq<HeapObj>, this: Value, m: Intrinsic, args: Seq<Value>) -> bool {
    if is_array_ref(h, this) {
        (m == Intrinsic::Push && args.len() == 1) || (m == Intrinsic::Pop && args.len() == 0)
    } else {
        args.len() == 1 && match (str_of(h, this), str_of(h, args[0])) {
            (Some(s), Some(p)) => s.len() <= i64::MAX && string_answer(m, s, p) is Some,
            _ => false,
        }
    }
}

/// Intrinsic `m` on `this` with `args` took `h0` to `h1` and answered `v`.
pub open spec fn intrinsic_answered(h0: Seq<HeapObj>, h1: Seq<HeapObj>, this: Value, m: Intrinsic, args: Seq<Value>, v: Value) -> bool {
    if is_array_ref(h0, this) {
        if m == Intrinsic::Push {
            v == Value::Null && push_done(h0, h1, this, args[0], Ok(()))
        } else {
            pop_done(h0, h1, this, Ok(v))
        }
    } else {
        h1 == h0 && Some(v) == string_answer(m, str_of(h0, this)->0, str_of(h0, args[0])->0)
    }
}

/// The heap after a property read with outcome `o` of a property of `obj`.
pub open spec fn read_heap(h0: Seq<HeapObj>, obj: Value, o: ReadOutcome) -> Seq<HeapObj> {
    match o {
        ReadOutcome::Bind { method, owner } => h0.push(HeapObj::BoundMethod(BoundData { receiver: obj, method, owner })),
        _ => h0,
    }
}

/// What a property read with outcome `o` gives.
pub open spec fn read_value(h0: Seq<HeapObj>, o: ReadOutcome) -> Result<PropertyRead, RuntimeError> {
    match o {
        ReadOutcome::Read(p) => Ok(p),
        ReadOutcome::Bind { .. } => Ok(PropertyRead::Value(Value::Obj(h0.len() as usize))),
        ReadOutcome::Fail(e) => Err(e),
    }
}

/// Whether method `m` is called without `this` in its receiver slot.
pub open spec fn skips_this(h: Seq<HeapObj>, this: Value, m: Value) -> bool {
    ||| obj_of(h, m) matches Some(HeapObj::BoundMethod(_))
    ||| obj_of(h, m) matches Some(HeapObj::EnumVariant(_))
    ||| obj_of(h, m) matches Some(HeapObj::NativeFn(_))
    ||| (obj_of(h, m) matches Some(HeapObj::Closure(p)) && !p.has_this)
    ||| obj_of(h, this) matches Some(HeapObj::Class(_))
}

/// The staged values of a method call: the method, the receiver slot, the
/// arguments.
pub open spec fn method_staging(h: Seq<HeapObj>, this: Value, m: Value, args: Seq<Value>) -> Seq<Value> {
    seq![m, if skips_this(h, this, m) { Value::Null } else { this }] + args
}

/// The call prepared as `r0` at depth `depth` gives `r` as a method call.
pub open spec fn method_checked(r0: Result<Prepared, RuntimeError>, depth: nat, r: Result<MethodCall, RuntimeError>) -> bool {
    if pushes_frame(r0) && depth >= max_call_depth() {
        r == Err::<MethodCall, RuntimeError>(RuntimeError::StackOverflow)
    } else {
        match r0 {
            Ok(p) => r == Ok::<MethodCall, RuntimeError>(MethodCall::Call(p)),
            Err(e) => r == Err::<MethodCall, RuntimeError>(e),
        }
    }
}

/// Calling method `name` of `this` with `args` at depth `depth` took heap
/// `h0` to `h2`, left `st2` staged and gave `r`.
pub open spec fn method_called(
    h0: Seq<HeapObj>,
    this: Value,
    name: Seq<char>,
    args: Seq<Value>,
    depth: nat,
    h2: Seq<HeapObj>,
    st2: Seq<Value>,
    r: Result<MethodCall, RuntimeError>,
) -> bool {
    let hit = match intrinsic_named(name) {
        Some(m) => intrinsic_hit(h0, this, m, args),
        None => false,
    };
    if hit {
        st2.len() == 0 && (r matches Ok(MethodCall::Answered(v))
            && intrinsic_answered(h0, h2, this, intrinsic_named(name)->0, args, v))
    } else {
        let o = property_read(h0, this, name, false);
        let h1 = read_heap(h0, this, o);
        match read_value(h0, o) {
            Err(e) => r == Err::<MethodCall, RuntimeError>(e) && h2 == h1 && st2.len() == 0,
            Ok(PropertyRead::CallGetter { getter, receiver }) =>
                r == Ok::<MethodCall, RuntimeError>(MethodCall::CallGetter { getter, receiver }) && h2 == h1 && st2.len() == 0,
            Ok(PropertyRead::Value(m)) => if dangling(h1, m) {
                r == Err::<MethodCall, RuntimeError>(RuntimeError::NotCallable { callee: m }) && h2 == h1 && st2.len() == 0
            } else {
                exists|r0: Result<Prepared, RuntimeError>|
                    #[trigger] call_prepared(h1, m, args.len() + 1, method_staging(h1, this, m, args), h2, st2, r0)
                        && method_checked(r0, depth, r)
            },
        }
    }
}

/// The intrinsic method named `name`.
fn intrinsic_of(name: &Vec<char>) -> (r: Option<Intrinsic>)
    ensures
        r == intrinsic_named(name@),
{
    let push = vec!['p', 'u', 's', 'h'];
    let pop = vec!['p', 'o', 'p'];
    let sw = vec!['s', 't', 'a', 'r', 't', 's', 'W', 'i', 't', 'h'];
    let ew = vec!['e', 'n', 'd', 's', 'W', 'i', 't', 'h'];
    let io = vec!['i', 'n', 'd', 'e', 'x', 'O', 'f'];
    assert(push@ =~= seq!['p', 'u', 's', 'h']);
    assert(pop@ =~= seq!['p', 'o', 'p']);
    assert(sw@ =~= seq!['s', 't', 'a', 'r', 't', 's', 'W', 'i', 't', 'h']);
    assert(ew@ =~= seq!['e', 'n', 'd', 's', 'W', 'i', 't', 'h']);
    assert(io@ =~= seq!['i', 'n', 'd', 'e', 'x', 'O', 'f']);
    if chars_eq(name, &push) {
        Some(Intrinsic::Push)
    } else if chars_eq(name, &pop) {
        Some(Intrinsic::Pop)
    } else if chars_eq(name, &sw) {
        Some(Intrinsic::StartsWith)
    } else if chars_eq(name, &ew) {
        Some(Intrinsic::EndsWith)
    } else if chars_eq(name, &io) {
        Some(Intrinsic::IndexOf)
    } else {
        None
    }
}

/// Whether method `m` is called without `this` (see [`skips_this`]).
fn skip_this(heap: &Heap, this: Value, m: Value) -> (b: bool)
    ensures
        b == skips_this(heap@, this, m),
{
    let by_method = match m {
        Value::Obj(k) => match heap.get(k) {
            Some(HeapObj::BoundMethod(_)) | Some(HeapObj::EnumVariant(_)) | Some(HeapObj::NativeFn(_)) => true,
            Some(HeapObj::Closure(p)) => !p.has_this,
            _ => false,
        },
        _ => false,
    };
    let by_this = match this {
        Value::Obj(k) => match heap.get(k) {
            Some(HeapObj::Class(_)) => true,
            _ => false,
        },
        _ => false,
    };
    by_method || by_this
}

/// Calls method `name` of `this` with `args`, `depth` frames deep.
pub fn call_method(
    this: Value,
    name: &Vec<char>,
    args: &Vec<Value>,
    depth: usize,
    staging: &mut Vec<Value>,
    heap: &mut Heap,
) -> (r: Result<MethodCall, RuntimeError>)
    requires
        old(heap).wf(),
        args@.len() + 302 <= usize::MAX,
    ensures
        final(heap).wf(),
        method_called(old(heap)@, this, name@, args@, depth as nat, final(heap)@, final(staging)@, r),
{
    let ghost h0 = heap@;
    staging.clear();
    if let Some(m) = intrinsic_of(name) {
        if let Some(v) = intrinsic_method(this, m, args, heap) {
            return Ok(MethodCall::Answered(v));
        }
    }
    assert(heap@ == h0);
    let read = get_property(this, name, false, heap);
    let ghost h1 = heap@;
    let method = match read {
        Err(e) => return Err(e),
        Ok(PropertyRead::CallGetter { getter, receiver }) => return Ok(MethodCall::CallGetter { getter, receiver }),
        Ok(PropertyRead::Value(m)) => m,
    };
    if let Value::Obj(k) = method {
        if k >= heap.len() {
            return Err(RuntimeError::NotCallable { callee: method });
        }
    }
    let skip = skip_this(heap, this, method);
    staging.push(method);
    staging.push(if skip { Value::Null } else { this });
    let mut i: usize = 0;
    while i < args.len()
        invariant
            i <= args@.len(),
            staging@ == method_staging(h1, this, method, args@).take(i + 2),
            heap@ == h1,
        decreases args@.len() - i,
    {
        staging.push(args[i]);
        i = i + 1;
        assert(staging@ =~= method_staging(h1, this, method, args@).take(i + 2));
    }
    assert(staging@ =~= method_staging(h1, this, method, args@));
    let ghost st1 = staging@;
    let r0 = prepare_call(method, args.len() + 1, staging, heap);
    proof {
        assert(call_prepared(h1, method, args@.len() + 1, st1, heap@, staging@, r0));
    }
    let frame = match &r0 {
        Ok(Prepared::Frame { .. }) | Ok(Prepared::Constructor { .. }) => true,
        _ => false,
    };
    if frame && depth >= MAX_CALL_DEPTH {
        return Err(RuntimeError::StackOverflow);
    }
    let ghost g0 = r0;
    let r = match r0 {
        Ok(p) => Ok(MethodCall::Call(p)),
        Err(e) => Err(e),
    };
    proof {
        assert(method_checked(g0, depth as nat, r));
        assert(call_prepared(h1, method, args@.len() + 1, st1, heap@, staging@, g0) && method_checked(g0, depth as nat, r));
    }
    r
}

/// The arguments that a prepared host call passes: the window of the last
/// `ac` staged values, without its first slot for a bare host function
/// (`bare`), whose callee slot holds the function itself.
pub open spec fn host_args_of(st: Seq<Value>, ac: nat, bare: bool) -> Seq<Value> {
    let w = window_of(st, ac);
    if bare && w.len() > 0 { w.drop_first() } else { w }
}

/// The host function that a prepared call runs, with its arguments.
pub fn host_call(p: &Prepared, staging: &Vec<Value>) -> (r: Option<(u64, Vec<Value>)>)
    ensures
        match *p {
            Prepared::RawNative { func, arg_count } => r matches Some((f, a)) && f == func
                && a@ == host_args_of(staging@, arg_count as nat, true),
            Prepared::BoundNative { func, arg_count } => r matches Some((f, a)) && f == func
                && a@ == host_args_of(staging@, arg_count as nat, false),
            _ => r is None,
        },
{
    let (func, ac, bare) = match p {
        Prepared::RawNative { func, arg_count } => (*func, *arg_count, true),
        Prepared::BoundNative { func, arg_count } => (*func, *arg_count, false),
        _ => return None,
    };
    let n = staging.len();
    let start: usize = if ac >= n { 0 } else { n - ac };
    let first: usize = if bare && start < n { start + 1 } else { start };
    let mut args: Vec<Value> = Vec::new();
    let mut k: usize = first;
    while k < n
        invariant
            first <= k <= n,
            n == staging@.len(),
            args@ == staging@.subrange(first as int, k as int),
        decreases n - k,
    {
        args.push(staging[k]);
        k = k + 1;
        assert(args@ =~= staging@.subrange(first as int, k as int));
    }
    proof {
        let w = window_of(staging@, ac as nat);
        assert(w =~= staging@.subrange(start as int, n as int));
        if bare && w.len() > 0 {
            assert(w.drop_first() =~= staging@.subrange(first as int, n as int));
        } else {
            assert(w =~= staging@.subrange(first as int, n as int));
        }
    }
    Some((func, args))
}

/// What a host function gave back.
pub enum HostResult {
    Returned(Value),
    /// It failed with this message.
    Failed(Vec<char>),
}

/// Completes a host call: its value goes to register `dest`; its failure
/// becomes the error of the call, and no register is written.
pub fn complete_host_call(regs: &mut Vec<Value>, dest: usize, res: HostResult) -> (r: Result<(), Vec<char>>)
    requires
        dest < old(regs)@.len(),
    ensures
        match res {
            HostResult::Returned(v) => r is Ok && final(regs)@ == old(regs)@.update(dest as int, v),
            HostResult::Failed(m) => r matches Err(e) && e@ == m@ && final(regs)@ == old(regs)@,
        },
{
    match res {
        HostResult::Returned(v) => {
            regs.set(dest, v);
            Ok(())
        },
        HostResult::Failed(m) => Err(m),
    }
}

} // verus!
