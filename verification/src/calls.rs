//! Calls: the argument window of a call, a new frame's registers, where a
//! closure's upvalues come from, a method call site's cache, and how a
//! compiled frame ended.
use vstd::prelude::*;
use crate::value::Value;
use crate::error::RuntimeError;
use crate::heap::{Heap, HeapObj};

verus! {

/// The last `arg_count` values staged for a call (all of them when fewer
/// are staged).
pub fn stage_window(staging: &Vec<Value>, arg_count: usize) -> (w: Vec<Value>)
    ensures
        w@ == staging@.skip(if arg_count >= staging@.len() { 0 } else { staging@.len() - arg_count }),
{
    let start: usize = if arg_count >= staging.len() { 0 } else { staging.len() - arg_count };
    let mut w: Vec<Value> = Vec::new();
    let mut k: usize = start;
    while k < staging.len()
        invariant
            start <= k <= staging@.len(),
            w@ == staging@.subrange(start as int, k as int),
        decreases staging@.len() - k,
    {
        w.push(staging[k]);
        assert(staging@.subrange(start as int, k + 1) =~= staging@.subrange(start as int, k as int).push(staging@[k as int]));
        k = k + 1;
    }
    assert(staging@.subrange(start as int, staging@.len() as int) =~= staging@.skip(start as int));
    w
}

/// The registers of a new frame: its first `min(arity, register_count)`
/// registers take the window's values in order (`null` past the window's
/// end), the rest start `null`.
pub open spec fn frame_registers(arity: nat, register_count: nat, window: Seq<Value>) -> Seq<Value> {
    Seq::new(register_count, |r: int| if r < arity && r < window.len() { window[r] } else { Value::Null })
}

/// Pushes a frame of `register_count` registers onto the register file and
/// fills its parameters from `window`; returns the frame's base.
pub fn materialize_frame(regs: &mut Vec<Value>, arity: usize, register_count: usize, window: &Vec<Value>) -> (base: usize)
    requires
        old(regs)@.len() + register_count <= usize::MAX,
    ensures
        base == old(regs)@.len(),
        final(regs)@ == old(regs)@ + frame_registers(arity as nat, register_count as nat, window@),
{
    let base = regs.len();
    let nparams: usize = if arity < register_count { arity } else { register_count };
    let mut r: usize = 0;
    while r < register_count
        invariant
            base == old(regs)@.len(),
            base + register_count <= usize::MAX,
            nparams <= register_count,
            nparams <= arity,
            nparams == arity || nparams == register_count,
            r <= register_count,
            regs@ == old(regs)@ + frame_registers(arity as nat, register_count as nat, window@).take(r as int),
        decreases register_count - r,
    {
        let v = if r < nparams && r < window.len() { window[r] } else { Value::Null };
        regs.push(v);
        assert(frame_registers(arity as nat, register_count as nat, window@).take(r + 1)
            =~= frame_registers(arity as nat, register_count as nat, window@).take(r as int).push(v));
        r = r + 1;
    }
    assert(frame_registers(arity as nat, register_count as nat, window@).take(register_count as int)
        =~= frame_registers(arity as nat, register_count as nat, window@));
    base
}

/// Where one of a new closure's upvalues comes from.
#[derive(Clone, Copy, PartialEq, Eq, Structural, Debug)]
pub enum UpvalueSrc {
    /// A register of the creating activation.
    Local(usize),
    /// One of the creating closure's own upvalues.
    Inherited(usize),
}

impl UpvalueSrc {
    /// The descriptor word of the bytecode: a non-zero high byte marks a
    /// register, the low byte is the index.
    pub fn from_bytecode(word: u16) -> (s: UpvalueSrc)
        ensures
            s == (if word / 256 != 0 { UpvalueSrc::Local((word % 256) as usize) } else { UpvalueSrc::Inherited((word % 256) as usize) }),
    {
        let index = crate::dispatch::lo(word);
        if crate::dispatch::hi(word) != 0 {
            UpvalueSrc::Local(index)
        } else {
            UpvalueSrc::Inherited(index)
        }
    }
}

/// A method call site's inline cache slot, and whether the cache can
/// answer for it.
#[derive(Clone, Copy, PartialEq, Eq, Structural, Debug)]
pub struct IcSite {
    pub cs: usize,
    pub usable: bool,
}

impl IcSite {
    /// Slot `cs` of a closure with `cache_len` cache slots, whose sites are
    /// marked megamorphic in `megamorphic`: usable when the slot exists and
    /// the site has not gone megamorphic.
    pub fn of(megamorphic: &Vec<bool>, cache_len: usize, cs: usize) -> (s: IcSite)
        ensures
            s.cs == cs,
            s.usable == (cs < cache_len && !(cs < megamorphic@.len() && megamorphic@[cs as int])),
    {
        let mega = cs < megamorphic.len() && megamorphic[cs];
        IcSite { cs, usable: cs < cache_len && !mega }
    }

    /// Whether the cache can answer for this site.
    pub fn usable(self) -> (b: bool)
        ensures
            b == self.usable,
    {
        self.usable
    }
}

/// How a compiled frame ended, as an instruction to the frame loop.
#[derive(Clone, Copy, PartialEq, Eq, Structural, Debug)]
pub enum JitFrameOutcome {
    /// Go round the frame loop again.
    Continue,
    /// The run is over with this value.
    Done(Value),
    /// Nothing below caught this error.
    Failed(RuntimeError),
}

impl JitFrameOutcome {
    /// `None` to go on; the run's result otherwise.
    pub fn into_result(self) -> (r: Option<Result<Value, RuntimeError>>)
        ensures
            r == (match self {
                JitFrameOutcome::Continue => None,
                JitFrameOutcome::Done(v) => Some(Ok(v)),
                JitFrameOutcome::Failed(e) => Some(Err(e)),
            }),
    {
        match self {
            JitFrameOutcome::Continue => None,
            JitFrameOutcome::Done(v) => Some(Ok(v)),
            JitFrameOutcome::Failed(e) => Some(Err(e)),
        }
    }
}

/// `n` nulls.
pub open spec fn nulls(n: nat) -> Seq<Value> {
    Seq::new(n, |i: int| Value::Null)
}

/// The register that takes a function's rest parameter: its last one.
pub open spec fn rest_index(arity: nat) -> nat {
    if arity > 0 { (arity - 1) as nat } else { 0 }
}

/// How many arguments a call passes once they are fitted to a function of
/// `arity` registers (see [`bundle_rest_args`]).
pub open spec fn bundled_count(arity: nat, has_rest: bool, ac: nat) -> nat {
    if has_rest { rest_index(arity) + 1 } else if ac < arity { arity } else { ac }
}

/// The staged values once the last `ac` are fitted to a function of
/// `arity` registers, a new rest array standing at heap position `at`.
pub open spec fn bundled_staging(arity: nat, has_rest: bool, ac: nat, st: Seq<Value>, at: int) -> Seq<Value> {
    let ri = rest_index(arity);
    if has_rest {
        let kept = if ac > ri { st.take(st.len() - (ac - ri)) } else { st + nulls((ri - ac) as nat) };
        kept.push(Value::Obj(at as usize))
    } else if ac < arity {
        st + nulls((arity - ac) as nat)
    } else {
        st
    }
}

/// The elements of the rest array that fitting makes, when it makes one.
pub open spec fn bundled_items(arity: nat, has_rest: bool, ac: nat, st: Seq<Value>) -> Option<Seq<Value>> {
    let ri = rest_index(arity);
    if has_rest {
        Some(if ac > ri { st.skip(st.len() - (ac - ri)) } else { Seq::<Value>::empty() })
    } else {
        None
    }
}

/// Heap `h1` is `h0` with a new array of `items` at its end, or `h0` itself
/// when there are none.
pub open spec fn heap_grown(h0: Seq<HeapObj>, h1: Seq<HeapObj>, items: Option<Seq<Value>>) -> bool {
    match items {
        Some(x) => h1.len() == h0.len() + 1 && h1.take(h0.len() as int) == h0
            && (h1.last() matches HeapObj::Array(a) && a@ == x),
        None => h1 == h0,
    }
}

/// Fits the `arg_count` staged arguments of a call to a function of `arity`
/// registers: a function with a rest parameter takes the arguments from its
/// last register on as one new array (empty when there are none, after nulls
/// for the missing ones); one without gets nulls for the missing arguments.
pub fn bundle_rest_args(arity: usize, has_rest: bool, arg_count: &mut usize, staging: &mut Vec<Value>, heap: &mut Heap)
    requires
        *old(arg_count) <= old(staging)@.len(),
        old(staging)@.len() + arity + 1 <= usize::MAX,
        old(heap).wf(),
    ensures
        final(heap).wf(),
        *final(arg_count) == bundled_count(arity as nat, has_rest, *old(arg_count) as nat),
        final(staging)@ == bundled_staging(arity as nat, has_rest, *old(arg_count) as nat, old(staging)@, old(heap)@.len() as int),
        heap_grown(old(heap)@, final(heap)@, bundled_items(arity as nat, has_rest, *old(arg_count) as nat, old(staging)@)),
{
    let ghost st = staging@;
    let ghost h0 = heap@;
    let rest_idx: usize = if arity > 0 { arity - 1 } else { 0 };
    if has_rest {
        let mut items: Vec<Value> = Vec::new();
        if *arg_count > rest_idx {
            let n = *arg_count - rest_idx;
            let start = staging.len() - n;
            let mut k: usize = start;
            while k < staging.len()
                invariant
                    start <= k <= staging@.len(),
                    staging@ == st,
                    items@ == st.subrange(start as int, k as int),
                decreases staging@.len() - k,
            {
                items.push(staging[k]);
                assert(st.subrange(start as int, k + 1) =~= st.subrange(start as int, k as int).push(st[k as int]));
                k = k + 1;
            }
            staging.truncate(start);
            assert(items@ =~= st.skip(start as int));
            assert(staging@ =~= st.take(start as int));
        } else {
            let mut k: usize = *arg_count;
            let ghost base = staging@;
            while k < rest_idx
                invariant
                    *arg_count <= k,
                    k <= rest_idx || rest_idx < *arg_count,
                    staging@ == st + nulls((k - *arg_count) as nat),
                    st.len() + arity + 1 <= usize::MAX,
                    rest_idx <= arity,
                    *arg_count <= st.len(),
                decreases rest_idx - k,
            {
                staging.push(Value::Null);
                assert(staging@ =~= st + nulls((k + 1 - *arg_count) as nat));
                k = k + 1;
            }
            assert(items@ =~= Seq::<Value>::empty());
        }
        let v = heap.allocate(HeapObj::Array(items));
        assert(heap@.take(h0.len() as int) =~= h0);
        staging.push(v);
        *arg_count = rest_idx + 1;
    } else if *arg_count < arity {
        let mut k: usize = *arg_count;
        while k < arity
            invariant
                *arg_count <= k <= arity,
                staging@ == st + nulls((k - *arg_count) as nat),
                st.len() + arity + 1 <= usize::MAX,
                *arg_count <= st.len(),
            decreases arity - k,
        {
            staging.push(Value::Null);
            assert(staging@ =~= st + nulls((k + 1 - *arg_count) as nat));
            k = k + 1;
        }
        *arg_count = arity;
    }
}

/// The position of the last pending constructor call of frame `f`, if any.
pub open spec fn last_pending(p: Seq<(usize, Value)>, f: usize) -> Option<int>
    decreases p.len(),
{
    if p.len() == 0 {
        None
    } else if p.last().0 == f {
        Some(p.len() - 1)
    } else {
        last_pending(p.drop_last(), f)
    }
}

proof fn lemma_last_pending_bounds(p: Seq<(usize, Value)>, f: usize)
    ensures
        last_pending(p, f) matches Some(i) ==> 0 <= i < p.len() && p[i].0 == f,
    decreases p.len(),
{
    if p.len() > 0 && p.last().0 != f {
        lemma_last_pending_bounds(p.drop_last(), f);
    }
}

/// The value a returning frame gives its caller when the frame may be a
/// constructor's: `pending` lists the constructor calls in progress as the
/// frame that runs each and the instance it builds. The frame's latest
/// entry leaves the list, and the call gives the instance when the
/// constructor returned `null`, else what it returned; a frame with no entry
/// gives `val`.
pub fn resolve_constructor_return(pending: &mut Vec<(usize, Value)>, returning_frame_idx: usize, val: Value) -> (r: Value)
    ensures
        match last_pending(old(pending)@, returning_frame_idx) {
            Some(i) => final(pending)@ == old(pending)@.remove(i)
                && r == (if val is Null { old(pending)@[i].1 } else { val }),
            None => final(pending)@ == old(pending)@ && r == val,
        },
{
    let ghost p0 = pending@;
    let mut i: usize = pending.len();
    assert(p0.take(i as int) =~= p0);
    while i > 0 && pending[i - 1].0 != returning_frame_idx
        invariant
            i <= p0.len(),
            pending@ == p0,
            last_pending(p0, returning_frame_idx) == last_pending(p0.take(i as int), returning_frame_idx),
        decreases i,
    {
        assert(p0.take(i as int).drop_last() =~= p0.take(i - 1));
        i = i - 1;
    }
    proof {
        lemma_last_pending_bounds(p0, returning_frame_idx);
        if i == 0 {
            assert(p0.take(0) =~= Seq::<(usize, Value)>::empty());
        } else {
            assert(p0.take(i as int).last() == p0[i - 1]);
        }
    }
    if i == 0 {
        val
    } else {
        let (_, instance) = pending.remove(i - 1);
        if val.is_null() {
            instance
        } else {
            val
        }
    }
}

} // verus!
