//! The frame loop of a run of the machine, as decisions on events.
//!
//! A run starts with `depth` frames live and goes on while more are. The
//! machine steps the top frame and reports what happened; [`Run::next`]
//! updates the frames, the `try` handlers and the registers and says what
//! the machine does next. A frame that returns hands its value to the
//! register its caller named, and its handlers leave with it; the run
//! finishes when its own frames are gone. A raised error goes to the latest
//! handler of a frame of the run: the frames above the handler's leave, the
//! handler's register receives the thrown value, and its frame goes on at
//! the `catch` block. An error no such handler takes leaves the run. A
//! suspended run leaves with `null`, its frame keeping where it goes on.
use vstd::prelude::*;
use crate::value::Value;
use crate::handlers::{TryHandler, Delivery, delivery_spec, deliver_error};

verus! {

/// A live frame: where its registers start, where it goes on, and the
/// register of its caller that receives its result.
#[derive(Clone, Copy, PartialEq, Eq, Structural, Debug)]
pub struct Activation {
    pub base: usize,
    pub ip: usize,
    pub return_reg: Option<u8>,
}

/// What the machine reports of the top frame.
#[derive(Clone, Copy, PartialEq, Eq, Structural, Debug)]
pub enum Event {
    /// An instruction ran; the frame goes on at `ip`.
    Continued { ip: usize },
    /// A call pushed a new frame.
    Entered(Activation),
    /// A `try` block started: its handler goes to `catch_ip` and puts the
    /// thrown value in register `err_reg`.
    TryStarted { catch_ip: usize, err_reg: u8 },
    /// A `try` block ended.
    TryEnded,
    /// The frame returned this value.
    Returned(Value),
    /// An error was raised, with this thrown value.
    Raised(Value),
    /// The machine was asked to suspend; the frame goes on at `ip` when the
    /// run is resumed.
    Suspended { ip: usize },
}

/// What the machine does next.
#[derive(Clone, Copy, PartialEq, Eq, Structural, Debug)]
pub enum Action {
    /// Step the top frame from its `ip`.
    Resume,
    /// The run is over, with this value.
    Finished(Value),
    /// The run is over: the error leaves it.
    Propagate,
}

/// The state of a run: its frames, `try` handlers and register file.
pub struct Run {
    pub frames: Vec<Activation>,
    pub handlers: Vec<TryHandler>,
    pub regs: Vec<Value>,
}

/// Each frame has the 256 registers that an operand byte can name.
pub open spec fn frames_fit(frames: Seq<Activation>, n_regs: nat) -> bool {
    forall|i: int| 0 <= i < frames.len() ==> #[trigger] frames[i].base + 256 <= n_regs
}

/// Each handler belongs to a live frame, and later handlers to frames no
/// lower than earlier ones.
pub open spec fn handlers_fit(hs: Seq<TryHandler>, n_frames: nat) -> bool {
    &&& forall|i: int| 0 <= i < hs.len() ==> 1 <= #[trigger] hs[i].frame_depth <= n_frames
    &&& forall|i: int, j: int| 0 <= i < j < hs.len() ==> hs[i].frame_depth <= hs[j].frame_depth
}

/// A state that a run started with `depth` frames can be in while it goes
/// on.
pub open spec fn run_ok(frames: Seq<Activation>, hs: Seq<TryHandler>, n_regs: nat, depth: nat) -> bool {
    &&& depth < frames.len()
    &&& frames_fit(frames, n_regs)
    &&& handlers_fit(hs, frames.len())
}

/// What an event needs: a new frame has its registers.
pub open spec fn event_ok(ev: Event, n_regs: nat) -> bool {
    match ev {
        Event::Entered(a) => a.base + 256 <= n_regs,
        _ => true,
    }
}

/// The handlers left when only `n` frames are live.
pub open spec fn live_handlers(hs: Seq<TryHandler>, n: nat) -> Seq<TryHandler>
    decreases hs.len(),
{
    if hs.len() > 0 && hs.last().frame_depth > n {
        live_handlers(hs.drop_last(), n)
    } else {
        hs
    }
}

/// Frame `a` going on at `ip`.
pub open spec fn at_ip(a: Activation, ip: usize) -> Activation {
    Activation { base: a.base, ip, return_reg: a.return_reg }
}

/// The frames, handlers and registers after event `ev` of a run that
/// started with `depth` frames, and what the machine does next.
pub open spec fn after_event(
    fr: Seq<Activation>,
    hs: Seq<TryHandler>,
    regs: Seq<Value>,
    depth: nat,
    ev: Event,
) -> (Seq<Activation>, Seq<TryHandler>, Seq<Value>, Action) {
    let top = fr.len() - 1;
    match ev {
        Event::Continued { ip } => (fr.update(top, at_ip(fr[top], ip)), hs, regs, Action::Resume),
        Event::Suspended { ip } => (fr.update(top, at_ip(fr[top], ip)), hs, regs, Action::Finished(Value::Null)),
        Event::Entered(a) => (fr.push(a), hs, regs, Action::Resume),
        Event::TryStarted { catch_ip, err_reg } => (
            fr,
            hs.push(TryHandler { catch_ip, frame_depth: fr.len() as usize, err_reg }),
            regs,
            Action::Resume,
        ),
        Event::TryEnded => (fr, if hs.len() > 0 { hs.drop_last() } else { hs }, regs, Action::Resume),
        Event::Returned(v) => {
            let rest = fr.drop_last();
            let regs1 = match fr[top].return_reg {
                Some(r) => if rest.len() > 0 { regs.update(rest.last().base + r, v) } else { regs },
                None => regs,
            };
            (rest, live_handlers(hs, rest.len()), regs1, if rest.len() <= depth { Action::Finished(v) } else { Action::Resume })
        },
        Event::Raised(t) => match delivery_spec(hs, depth) {
            Delivery::Caught(h) => {
                let kept = fr.take(h.frame_depth as int);
                let k = kept.len() - 1;
                (kept.update(k, at_ip(kept[k], h.catch_ip)), hs.drop_last(), regs.update(kept[k].base + h.err_reg, t), Action::Resume)
            },
            Delivery::Uncaught => (fr, hs, regs, Action::Propagate),
        },
    }
}

/// What is left of `hs` when `n` frames are live is a prefix of it whose
/// handlers belong to those frames.
proof fn lemma_live_handlers(hs: Seq<TryHandler>, n: nat, m: nat)
    requires
        handlers_fit(hs, m),
    ensures
        handlers_fit(live_handlers(hs, n), n),
        live_handlers(hs, n).len() <= hs.len(),
        live_handlers(hs, n) == hs.take(live_handlers(hs, n).len() as int),
    decreases hs.len(),
{
    if hs.len() > 0 && hs.last().frame_depth > n {
        lemma_live_handlers(hs.drop_last(), n, m);
        assert(hs.drop_last().take(live_handlers(hs, n).len() as int) =~= hs.take(live_handlers(hs, n).len() as int));
    } else {
        assert(hs.take(hs.len() as int) =~= hs);
        if hs.len() > 0 {
            assert forall|i: int| 0 <= i < hs.len() implies #[trigger] hs[i].frame_depth <= n by {
                if i < hs.len() - 1 {
                    assert(hs[i].frame_depth <= hs[hs.len() - 1].frame_depth);
                }
            }
        }
    }
}

impl Run {
    /// Takes event `ev` of a run that started with `depth` frames and says
    /// what the machine does next.
    pub fn next(&mut self, depth: usize, ev: Event) -> (a: Action)
        requires
            run_ok(old(self).frames@, old(self).handlers@, old(self).regs@.len(), depth as nat),
            event_ok(ev, old(self).regs@.len()),
        ensures
            (final(self).frames@, final(self).handlers@, final(self).regs@, a)
                == after_event(old(self).frames@, old(self).handlers@, old(self).regs@, depth as nat, ev),
            a == Action::Resume ==> run_ok(final(self).frames@, final(self).handlers@, final(self).regs@.len(), depth as nat),
    {
        let ghost fr0 = self.frames@;
        let ghost hs0 = self.handlers@;
        let top = self.frames.len() - 1;
        let reg_count = self.regs.len();
        match ev {
            Event::Continued { ip } => {
                let a = self.frames[top];
                self.frames.set(top, Activation { base: a.base, ip, return_reg: a.return_reg });
                assert(self.frames@ == fr0.update(top as int, at_ip(fr0[top as int], ip)));
                assert(forall|i: int| 0 <= i < fr0.len() ==> self.frames@[i].base == fr0[i].base);
                Action::Resume
            },
            Event::Suspended { ip } => {
                let a = self.frames[top];
                self.frames.set(top, Activation { base: a.base, ip, return_reg: a.return_reg });
                assert(self.frames@ == fr0.update(top as int, at_ip(fr0[top as int], ip)));
                Action::Finished(Value::Null)
            },
            Event::Entered(a) => {
                self.frames.push(a);
                assert(forall|i: int| 0 <= i < fr0.len() ==> self.frames@[i] == fr0[i]);
                Action::Resume
            },
            Event::TryStarted { catch_ip, err_reg } => {
                let n = self.frames.len();
                self.handlers.push(TryHandler { catch_ip, frame_depth: n, err_reg });
                assert(forall|i: int| 0 <= i < hs0.len() ==> self.handlers@[i] == hs0[i]);
                Action::Resume
            },
            Event::TryEnded => {
                let _ = self.handlers.pop();
                Action::Resume
            },
            Event::Returned(v) => {
                let done = self.frames[top];
                let _ = self.frames.pop();
                assert(self.frames@ == fr0.drop_last());
                let n = self.frames.len();
                if let Some(r) = done.return_reg {
                    if n > 0 {
                        let caller = self.frames[n - 1];
                        assert(caller.base == fr0[n - 1].base);
                        assert(fr0[n - 1].base + 256 <= self.regs@.len());
                        assert(reg_count == self.regs@.len());
                        self.regs.set(caller.base + r as usize, v);
                    }
                }
                let ghost regs1 = self.regs@;
                while self.handlers.len() > 0 && self.handlers[self.handlers.len() - 1].frame_depth > n
                    invariant
                        live_handlers(self.handlers@, n as nat) == live_handlers(hs0, n as nat),
                        self.frames@ == fr0.drop_last(),
                        self.regs@ == regs1,
                        n == self.frames@.len(),
                    decreases self.handlers@.len(),
                {
                    let _ = self.handlers.pop();
                }
                proof {
                    lemma_live_handlers(hs0, n as nat, fr0.len());
                    assert(forall|i: int| 0 <= i < n ==> self.frames@[i] == #[trigger] fr0[i]);
                }
                if n <= depth { Action::Finished(v) } else { Action::Resume }
            },
            Event::Raised(t) => {
                match deliver_error(&mut self.handlers, depth) {
                    Delivery::Caught(h) => {
                        proof {
                            assert(hs0[hs0.len() - 1] == h);
                        }
                        self.frames.truncate(h.frame_depth);
                        let k = h.frame_depth - 1;
                        let a = self.frames[k];
                        assert(a.base == fr0[k as int].base);
                        assert(fr0[k as int].base + 256 <= self.regs@.len());
                        assert(reg_count == self.regs@.len());
                        self.frames.set(k, Activation { base: a.base, ip: h.catch_ip, return_reg: a.return_reg });
                        self.regs.set(a.base + h.err_reg as usize, t);
                        proof {
                            assert(self.frames@.len() == h.frame_depth);
                            assert(forall|i: int| 0 <= i < self.frames@.len() ==> self.frames@[i].base == fr0[i].base);
                            assert forall|i: int| 0 <= i < self.handlers@.len() implies
                                #[trigger] self.handlers@[i].frame_depth <= h.frame_depth by {
                                assert(hs0[i].frame_depth <= hs0[hs0.len() - 1].frame_depth);
                            }
                        }
                        Action::Resume
                    },
                    Delivery::Uncaught => Action::Propagate,
                }
            },
        }
    }
}

/// An error raised in a frame that a `try` block's frame called goes back
/// to that block: the called frame leaves, the `try`'s frame goes on at its
/// `catch` block with the thrown value in the handler's register, and the
/// handlers are as before the `try`.
pub proof fn lemma_try_catches_callee_error(
    fr: Seq<Activation>,
    hs: Seq<TryHandler>,
    regs: Seq<Value>,
    depth: nat,
    catch_ip: usize,
    err_reg: u8,
    callee: Activation,
    thrown: Value,
)
    requires
        run_ok(fr, hs, regs.len(), depth),
        fr.len() <= usize::MAX,
        callee.base + 256 <= regs.len(),
    ensures
        ({
            let (fr1, hs1, regs1, a1) = after_event(fr, hs, regs, depth, Event::TryStarted { catch_ip, err_reg });
            let (fr2, hs2, regs2, a2) = after_event(fr1, hs1, regs1, depth, Event::Entered(callee));
            let (fr3, hs3, regs3, a3) = after_event(fr2, hs2, regs2, depth, Event::Raised(thrown));
            &&& a1 == Action::Resume && a2 == Action::Resume && a3 == Action::Resume
            &&& fr3 == fr.update(fr.len() - 1, at_ip(fr.last(), catch_ip))
            &&& hs3 == hs
            &&& regs3 == regs.update(fr.last().base + err_reg, thrown)
        }),
{
    let (fr1, hs1, regs1, a1) = after_event(fr, hs, regs, depth, Event::TryStarted { catch_ip, err_reg });
    let (fr2, hs2, regs2, a2) = after_event(fr1, hs1, regs1, depth, Event::Entered(callee));
    let h = TryHandler { catch_ip, frame_depth: fr.len() as usize, err_reg };
    assert(hs2 == hs.push(h));
    assert(hs2.last() == h);
    assert(delivery_spec(hs2, depth) == Delivery::Caught(h));
    assert(fr2.take(fr.len() as int) =~= fr);
    assert(hs2.drop_last() =~= hs);
}

/// A call that returns hands its value to the register its caller named
/// and leaves the caller's frames and handlers as they were.
pub proof fn lemma_return_answers_caller(
    fr: Seq<Activation>,
    hs: Seq<TryHandler>,
    regs: Seq<Value>,
    depth: nat,
    callee: Activation,
    v: Value,
)
    requires
        run_ok(fr, hs, regs.len(), depth),
        callee.base + 256 <= regs.len(),
    ensures
        ({
            let (fr1, hs1, regs1, a1) = after_event(fr, hs, regs, depth, Event::Entered(callee));
            let (fr2, hs2, regs2, a2) = after_event(fr1, hs1, regs1, depth, Event::Returned(v));
            &&& a2 == Action::Resume
            &&& fr2 == fr
            &&& hs2 == hs
            &&& regs2 == match callee.return_reg {
                Some(r) => regs.update(fr.last().base + r, v),
                None => regs,
            }
        }),
{
    let (fr1, hs1, regs1, a1) = after_event(fr, hs, regs, depth, Event::Entered(callee));
    assert(fr1.drop_last() =~= fr);
    lemma_live_handlers(hs, fr.len(), fr.len());
    assert(hs.take(hs.len() as int) =~= hs);
    if hs.len() > 0 {
        assert(hs.last().frame_depth <= fr.len());
    }
}

} // verus!
