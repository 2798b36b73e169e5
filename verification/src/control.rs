//! Instruction-pointer moves for the jump opcodes, and the counting of a
//! function's loop back edges that asks for its loop to be compiled.
use vstd::prelude::*;
use crate::value::{Value, truthy};
use crate::error::RuntimeError;
use crate::handlers::TryHandler;

verus! {

/// Where a forward jump of `offset` from `ip` lands.
pub open spec fn jumped(ip: int, offset: int) -> int {
    ip + offset
}

/// Where a backward jump of `distance` from `ip` lands, or the error for a
/// distance past the start of the code.
pub open spec fn looped(ip: int, distance: int) -> Result<int, RuntimeError> {
    if distance > ip { Err(RuntimeError::LoopNegativeIp) } else { Ok(ip - distance) }
}

/// Where a conditional jump lands: forward by `offset` when `cond`'s
/// truthiness is `when`, else where it was.
pub open spec fn branched(ip: int, offset: int, cond: Value, when: bool) -> int {
    if truthy(cond) == when { ip + offset } else { ip }
}

/// Moves `ip` forward by `offset` code units.
pub fn jump(ip: &mut usize, offset: u16)
    requires
        *old(ip) + offset <= usize::MAX,
    ensures
        *final(ip) == jumped(*old(ip) as int, offset as int),
{
    *ip = *ip + offset as usize;
}

/// Moves `ip` back by `distance` code units; a distance past the start of
/// the code is an error and leaves `ip` where it was.
pub fn loop_back(ip: &mut usize, distance: u16) -> (r: Result<(), RuntimeError>)
    ensures
        match looped(*old(ip) as int, distance as int) {
            Ok(to) => r is Ok && *final(ip) == to,
            Err(e) => r == Err::<(), RuntimeError>(e) && *final(ip) == *old(ip),
        },
{
    let dist = distance as usize;
    if dist > *ip {
        return Err(RuntimeError::LoopNegativeIp);
    }
    *ip = *ip - dist;
    Ok(())
}

/// Moves `ip` forward by `offset` when `cond` is false.
pub fn jump_if_false(ip: &mut usize, offset: u16, cond: Value)
    requires
        *old(ip) + offset <= usize::MAX,
    ensures
        *final(ip) == branched(*old(ip) as int, offset as int, cond, false),
{
    if !cond.is_truthy() {
        *ip = *ip + offset as usize;
    }
}

/// Moves `ip` forward by `offset` when `cond` is true.
pub fn jump_if_true(ip: &mut usize, offset: u16, cond: Value)
    requires
        *old(ip) + offset <= usize::MAX,
    ensures
        *final(ip) == branched(*old(ip) as int, offset as int, cond, true),
{
    if cond.is_truthy() {
        *ip = *ip + offset as usize;
    }
}

/// A backward jump by the distance of a forward jump returns to where the
/// forward jump started.
pub proof fn lemma_loop_undoes_jump(ip: usize, offset: u16)
    ensures
        looped(jumped(ip as int, offset as int), offset as int) == Ok::<int, RuntimeError>(ip as int),
{
}

/// For a non-zero offset, exactly one of the two conditional jumps moves
/// the instruction pointer, whatever the condition.
pub proof fn lemma_one_branch_taken(ip: usize, offset: u16, cond: Value)
    requires
        offset > 0,
    ensures
        (branched(ip as int, offset as int, cond, false) != ip) != (branched(ip as int, offset as int, cond, true) != ip),
        branched(ip as int, offset as int, cond, false) == ip || branched(ip as int, offset as int, cond, false) == ip + offset,
        branched(ip as int, offset as int, cond, true) == ip || branched(ip as int, offset as int, cond, true) == ip + offset,
        (branched(ip as int, offset as int, cond, true) == ip + offset) == truthy(cond),
{
}

/// A function's back-edge counter after one more back edge: counting is
/// off when compiling is; a count that reaches `threshold` starts over at
/// zero and crosses (the second component).
pub open spec fn backedge_step(count: u32, threshold: u32, no_jit: bool) -> (u32, bool) {
    if no_jit {
        (count, false)
    } else {
        let n: u32 = if count == u32::MAX { 0 } else { (count + 1) as u32 };
        if n < threshold { (n, false) } else { (0, true) }
    }
}

/// Whether compiling the loop may be asked for: its compilation has not
/// failed before, and the latest `try` handler does not belong to the
/// looping frame (the last of `frames_len`), whose handlers compiled code
/// would not see.
pub open spec fn osr_allowed(osr_failed: bool, handlers: Seq<TryHandler>, frames_len: nat) -> bool {
    !osr_failed && !(handlers.len() > 0 && handlers.last().frame_depth >= frames_len)
}

/// Counts a back edge of a loop of the function whose counter is `count`,
/// and says whether to ask for the loop to be compiled and entered.
pub fn note_backedge(
    count: &mut u32,
    threshold: u32,
    no_jit: bool,
    osr_failed: bool,
    handlers: &Vec<TryHandler>,
    frames_len: usize,
) -> (osr: bool)
    ensures
        *final(count) == backedge_step(*old(count), threshold, no_jit).0,
        osr == (backedge_step(*old(count), threshold, no_jit).1 && osr_allowed(osr_failed, handlers@, frames_len as nat)),
{
    if no_jit {
        return false;
    }
    let n: u32 = if *count == u32::MAX { 0 } else { *count + 1 };
    if n < threshold {
        *count = n;
        return false;
    }
    *count = 0;
    if osr_failed {
        return false;
    }
    let k = handlers.len();
    if k > 0 && handlers[k - 1].frame_depth >= frames_len {
        return false;
    }
    true
}

/// How the machine goes on after a loop's back edge.
#[derive(Clone, Copy, PartialEq, Eq, Structural, Debug)]
pub enum EdgeFlow {
    /// With the next instruction of the frame.
    ContinueInstruction,
    /// Back to the frame loop, which enters the compiled loop.
    ContinueFrame,
}

/// The flow after a back edge whose count asked for compiling (`osr`) or not.
pub fn back_edge_flow(osr: bool) -> (f: EdgeFlow)
    ensures
        f == if osr { EdgeFlow::ContinueFrame } else { EdgeFlow::ContinueInstruction },
{
    if osr { EdgeFlow::ContinueFrame } else { EdgeFlow::ContinueInstruction }
}

/// Every `threshold` back edges of a function ask once for its loop to be
/// compiled: counting up from zero, the edges before the last leave no
/// request and count one more each.
pub proof fn lemma_backedges_count_up(count: u32, threshold: u32)
    requires
        count + 1 < threshold,
    ensures
        backedge_step(count, threshold, false) == ((count + 1) as u32, false),
        backedge_step((threshold - 1) as u32, threshold, false) == (0u32, true),
{
}

} // verus!
