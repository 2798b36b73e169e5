//! `try` handlers: pushing one when a `try` block starts, popping it when
//! the block ends, and delivering a run-time error to the nearest one.
//!
//! A handler records where its `catch` block starts, how many frames were
//! live when it was pushed (its frame is the last of them) and the register
//! of that frame that receives the thrown value. A run of the machine that
//! started with `depth` frames live delivers an error only to a handler of
//! a frame of its own, one whose frame count is above `depth`; an error the
//! run cannot deliver leaves the run.
use vstd::prelude::*;
use crate::value::Value;

verus! {

/// A `try` handler.
#[derive(Clone, Copy, PartialEq, Eq, Structural, Debug)]
pub struct TryHandler {
    /// Where the `catch` block starts.
    pub catch_ip: usize,
    /// How many frames were live when the handler was pushed.
    pub frame_depth: usize,
    /// The register of the handler's frame that receives the thrown value.
    pub err_reg: u8,
}

/// The `try` instruction: its operand word names the register for the
/// thrown value (high byte), the next two units the 32-bit distance from
/// the end of the instruction to the `catch` block. The handler is pushed
/// for the current frame, the last of `frames_len`.
pub fn push_try(handlers: &mut Vec<TryHandler>, code: &Vec<u16>, ip: &mut usize, frames_len: usize)
    requires
        *old(ip) + 2 < code@.len(),
        *old(ip) + 3 + crate::dispatch::wide_offset(code@, *old(ip) + 1) <= usize::MAX,
    ensures
        *final(ip) == *old(ip) + 3,
        final(handlers)@ == old(handlers)@.push(TryHandler {
            catch_ip: (*old(ip) + 3 + crate::dispatch::wide_offset(code@, *old(ip) + 1)) as usize,
            frame_depth: frames_len,
            err_reg: (code@[*old(ip) as int] / 256) as u8,
        }),
{
    let w1 = code[*ip];
    let off = crate::dispatch::read_offset(code, *ip + 1);
    *ip = *ip + 3;
    let err_reg = crate::dispatch::hi(w1) as u8;
    handlers.push(TryHandler { catch_ip: *ip + off, frame_depth: frames_len, err_reg });
}

/// The end of a `try` block: its handler goes.
pub fn pop_try(handlers: &mut Vec<TryHandler>)
    ensures
        final(handlers)@ == if old(handlers)@.len() > 0 { old(handlers)@.drop_last() } else { old(handlers)@ },
{
    let _ = handlers.pop();
}

/// Where an error goes.
#[derive(Clone, Copy, PartialEq, Eq, Structural, Debug)]
pub enum Delivery {
    /// To this handler, which leaves the stack.
    Caught(TryHandler),
    /// Out of the run.
    Uncaught,
}

/// Where an error met in a run that started with `depth` frames goes: to
/// the latest handler when it belongs to a frame of the run.
pub open spec fn delivery_spec(handlers: Seq<TryHandler>, depth: nat) -> Delivery {
    if handlers.len() > 0 && handlers.last().frame_depth > depth {
        Delivery::Caught(handlers.last())
    } else {
        Delivery::Uncaught
    }
}

/// Delivers an error met in a run that started with `depth` frames.
pub fn deliver_error(handlers: &mut Vec<TryHandler>, depth: usize) -> (d: Delivery)
    ensures
        d == delivery_spec(old(handlers)@, depth as nat),
        final(handlers)@ == (match d {
            Delivery::Caught(_) => old(handlers)@.drop_last(),
            Delivery::Uncaught => old(handlers)@,
        }),
{
    let n = handlers.len();
    if n > 0 && handlers[n - 1].frame_depth > depth {
        let h = handlers[n - 1];
        let _ = handlers.pop();
        Delivery::Caught(h)
    } else {
        Delivery::Uncaught
    }
}

/// Resumes at handler `h` with `thrown`: the frames above the handler's
/// leave (`frame_bases` holds each live frame's first register), the
/// handler's register of its frame receives the thrown value, and execution
/// goes on at the `catch` block, whose position is returned.
pub fn unwind_to_handler(frame_bases: &mut Vec<usize>, regs: &mut Vec<Value>, h: TryHandler, thrown: Value) -> (ip: usize)
    requires
        1 <= h.frame_depth <= old(frame_bases)@.len(),
        old(frame_bases)@[h.frame_depth - 1] + h.err_reg < old(regs)@.len(),
    ensures
        final(frame_bases)@ == old(frame_bases)@.take(h.frame_depth as int),
        final(regs)@ == old(regs)@.update(old(frame_bases)@[h.frame_depth - 1] + h.err_reg, thrown),
        ip == h.catch_ip,
{
    let reg_count = regs.len();
    frame_bases.truncate(h.frame_depth);
    let base = frame_bases[h.frame_depth - 1];
    regs.set(base + h.err_reg as usize, thrown);
    h.catch_ip
}

} // verus!
