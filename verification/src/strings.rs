//! The intrinsic methods that a method call answers before any lookup:
//! `push` and `pop` on an array, `startsWith`, `endsWith` and `indexOf` on
//! a string.
use vstd::prelude::*;
use crate::value::Value;
use crate::heap::{Heap, HeapObj};
use crate::arith::str_of;
use crate::collections::{is_array_ref, push_done, pop_done};

verus! {

/// `p` occurs in `s` at position `i`.
pub open spec fn occurs_at(s: Seq<char>, p: Seq<char>, i: int) -> bool {
    0 <= i && i + p.len() <= s.len() && s.subrange(i, i + p.len()) == p
}

/// Whether `s` begins with `p`.
pub fn starts_with(s: &Vec<char>, p: &Vec<char>) -> (b: bool)
    ensures
        b == occurs_at(s@, p@, 0),
{
    if p.len() > s.len() {
        return false;
    }
    matches_at(s, p, 0)
}

/// Whether `s` ends with `p`.
pub fn ends_with(s: &Vec<char>, p: &Vec<char>) -> (b: bool)
    ensures
        b == (p@.len() <= s@.len() && occurs_at(s@, p@, s@.len() - p@.len())),
{
    if p.len() > s.len() {
        return false;
    }
    matches_at(s, p, s.len() - p.len())
}

/// Whether `p` occurs in `s` at `i`, for a position where it fits.
fn matches_at(s: &Vec<char>, p: &Vec<char>, i: usize) -> (b: bool)
    requires
        i + p@.len() <= s@.len(),
    ensures
        b == occurs_at(s@, p@, i as int),
{
    let n = s.len();
    let mut k: usize = 0;
    while k < p.len()
        invariant
            n == s@.len(),
            i + p@.len() <= s@.len(),
            k <= p@.len(),
            forall|j: int| 0 <= j < k ==> s@[i + j] == p@[j],
        decreases p@.len() - k,
    {
        if s[i + k] != p[k] {
            assert(s@.subrange(i as int, i + p@.len())[k as int] != p@[k as int]);
            return false;
        }
        k = k + 1;
    }
    assert(s@.subrange(i as int, i + p@.len()) =~= p@);
    true
}

/// The position in characters of the first occurrence of `p` in `s`: `0`
/// for an empty `p`, `-1` when `p` does not occur.
pub fn char_index_of(s: &Vec<char>, p: &Vec<char>) -> (r: i64)
    requires
        s@.len() <= i64::MAX,
    ensures
        r >= 0 ==> occurs_at(s@, p@, r as int) && forall|j: int| 0 <= j < r ==> !occurs_at(s@, p@, j),
        r < 0 ==> r == -1 && forall|j: int| !occurs_at(s@, p@, j),
{
    if p.len() == 0 {
        assert(s@.subrange(0, 0) =~= p@);
        return 0;
    }
    if p.len() > s.len() {
        return -1;
    }
    let last = s.len() - p.len();
    let mut i: usize = 0;
    while i <= last
        invariant
            last + p@.len() == s@.len(),
            p@.len() >= 1,
            last < usize::MAX,
            s@.len() <= i64::MAX,
            i <= last + 1,
            forall|j: int| 0 <= j < i ==> !occurs_at(s@, p@, j),
        decreases last + 1 - i,
    {
        if matches_at(s, p, i) {
            return i as i64;
        }
        i = i + 1;
    }
    -1
}

/// The intrinsic methods.
#[derive(Clone, Copy, PartialEq, Eq, Structural, Debug)]
pub enum Intrinsic {
    Push,
    Pop,
    StartsWith,
    EndsWith,
    IndexOf,
}

/// What a string intrinsic gives on strings `s` and `p`.
pub open spec fn string_answer(m: Intrinsic, s: Seq<char>, p: Seq<char>) -> Option<Value> {
    match m {
        Intrinsic::StartsWith => Some(Value::Bool(occurs_at(s, p, 0))),
        Intrinsic::EndsWith => Some(Value::Bool(p.len() <= s.len() && occurs_at(s, p, s.len() - p.len()))),
        Intrinsic::IndexOf => if exists|i: int| occurs_at(s, p, i) {
            Some(Value::Int((choose|i: int| occurs_at(s, p, i) && forall|j: int| 0 <= j < i ==> !occurs_at(s, p, j)) as i64))
        } else {
            Some(Value::Int(-1i64))
        },
        _ => None,
    }
}

/// `this.m(args)` answered directly: `push` with one argument and `pop` with
/// none on an array, the string methods with one string argument on a
/// string. `None` sends the call on to the general method lookup.
pub fn intrinsic_method(this: Value, m: Intrinsic, args: &Vec<Value>, heap: &mut Heap) -> (r: Option<Value>)
    requires
        old(heap).wf(),
    ensures
        final(heap).wf(),
        is_array_ref(old(heap)@, this) ==> (
            if m == Intrinsic::Push && args@.len() == 1 {
                r == Some(Value::Null) && push_done(old(heap)@, final(heap)@, this, args@[0], Ok(()))
            } else if m == Intrinsic::Pop && args@.len() == 0 {
                r is Some && pop_done(old(heap)@, final(heap)@, this, Ok(r->0))
            } else {
                r is None && final(heap)@ == old(heap)@
            }
        ),
        !is_array_ref(old(heap)@, this) ==> final(heap)@ == old(heap)@ && r == (
            if args@.len() == 1 {
                match (str_of(old(heap)@, this), str_of(old(heap)@, args@[0])) {
                    (Some(s), Some(p)) => if s.len() <= i64::MAX { string_answer(m, s, p) } else { None },
                    _ => None,
                }
            } else {
                None
            }
        ),
{
    if crate::advanced::is_array(this, heap) {
        if m == Intrinsic::Push && args.len() == 1 {
            let _ = crate::collections::array_push(this, args[0], heap);
            return Some(Value::Null);
        }
        if m == Intrinsic::Pop && args.len() == 0 {
            return match crate::collections::array_pop(this, heap) {
                Ok(v) => Some(v),
                Err(_) => None,
            };
        }
        return None;
    }
    if args.len() != 1 {
        return None;
    }
    let (s, p) = match (this, args[0]) {
        (Value::Obj(i), Value::Obj(j)) => match (heap.get(i), heap.get(j)) {
            (Some(HeapObj::Str(s)), Some(HeapObj::Str(p))) => (s, p),
            _ => return None,
        },
        _ => return None,
    };
    if s.len() as u64 > i64::MAX as u64 {
        return None;
    }
    match m {
        Intrinsic::StartsWith => Some(Value::Bool(starts_with(s, p))),
        Intrinsic::EndsWith => Some(Value::Bool(ends_with(s, p))),
        Intrinsic::IndexOf => {
            let k = char_index_of(s, p);
            proof {
                if k >= 0 {
                    assert(occurs_at(s@, p@, k as int));
                    let c = choose|i: int| occurs_at(s@, p@, i) && forall|j: int| 0 <= j < i ==> !occurs_at(s@, p@, j);
                    assert(occurs_at(s@, p@, c) && forall|j: int| 0 <= j < c ==> !occurs_at(s@, p@, j));
                    if c < k {
                        assert(!occurs_at(s@, p@, c));
                    }
                    if k < c {
                        assert(!occurs_at(s@, p@, k as int));
                    }
                }
            }
            Some(Value::Int(k))
        },
        _ => None,
    }
}

/// A string starts with `p` exactly when `p` first occurs in it at 0.
pub proof fn lemma_starts_with_is_index_zero(s: Seq<char>, p: Seq<char>)
    requires
        s.len() <= i64::MAX,
    ensures
        string_answer(Intrinsic::StartsWith, s, p) == Some(Value::Bool(string_answer(Intrinsic::IndexOf, s, p) == Some(Value::Int(0)))),
{
    if occurs_at(s, p, 0) {
        let c = choose|i: int| occurs_at(s, p, i) && forall|j: int| 0 <= j < i ==> !occurs_at(s, p, j);
        assert(occurs_at(s, p, c) && forall|j: int| 0 <= j < c ==> !occurs_at(s, p, j));
        assert(c == 0) by {
            if c > 0 {
                assert(!occurs_at(s, p, 0));
            }
        }
    } else {
        if exists|i: int| occurs_at(s, p, i) {
            let c = choose|i: int| occurs_at(s, p, i) && forall|j: int| 0 <= j < i ==> !occurs_at(s, p, j);
            assert(exists|i: int| occurs_at(s, p, i) && forall|j: int| 0 <= j < i ==> !occurs_at(s, p, j)) by {
                lemma_first_occurrence(s, p);
            }
            assert(occurs_at(s, p, c));
            assert(c != 0);
            assert(0 < c <= s.len());
            assert(c as i64 != 0);
        }
    }
}

/// When `p` occurs in `s`, it has a first occurrence.
proof fn lemma_first_occurrence(s: Seq<char>, p: Seq<char>)
    requires
        exists|i: int| occurs_at(s, p, i),
    ensures
        exists|i: int| occurs_at(s, p, i) && forall|j: int| 0 <= j < i ==> !occurs_at(s, p, j),
{
    let w = choose|i: int| occurs_at(s, p, i);
    lemma_first_below(s, p, w);
}

/// Below an occurrence at `w` there is a first occurrence.
proof fn lemma_first_below(s: Seq<char>, p: Seq<char>, w: int)
    requires
        occurs_at(s, p, w),
    ensures
        exists|i: int| occurs_at(s, p, i) && forall|j: int| 0 <= j < i ==> !occurs_at(s, p, j),
    decreases w,
{
    if forall|j: int| 0 <= j < w ==> !occurs_at(s, p, j) {
        assert(occurs_at(s, p, w) && forall|j: int| 0 <= j < w ==> !occurs_at(s, p, j));
    } else {
        let v = choose|j: int| 0 <= j < w && occurs_at(s, p, j);
        lemma_first_below(s, p, v);
    }
}

} // verus!
