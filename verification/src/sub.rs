//! Subscriptions: who is called with a frame, and what happens to a frame
//! that finds its subscriber busy.
//!
//! The threads that run callbacks live outside this module. They ask what to
//! do next, do it, and report back. An entry is `running` from the moment an
//! invocation is handed out until it is reported as finished: that is the
//! gate which teardown waits for.

use vstd::prelude::*;
use crate::abi::ABuf;
use crate::frame::{Frame, RawBuf};
use crate::heap::{
    both, freed, freed_all, keeps, lemma_freed_one, nothing, one, transfer, Heap, Holding,
};
use crate::storage::PlatformCall;

verus! {

/// A callback. The numbers name what the caller registered: a function and
/// its context, or a closure.
#[derive(Clone, Copy, Debug, PartialEq, Eq, Structural)]
pub enum SubCb {
    /// A function that borrows the frame for the call.
    C { cb: u64, user: u64 },
    /// A closure that gets a reference of its own.
    Rust(u64),
}

/// A call to be made now.
#[derive(Debug)]
pub enum Invocation {
    C { cb: u64, user: u64, buf: RawBuf },
    Rust { f: u64, frame: Frame },
}

/// The mailbox of a subscription that gets the newest frame only. It has
/// room for one: a deeper queue would fill with frames that nobody wants any
/// more.
pub struct Pump {
    pub slot: Option<Frame>,
    /// The frame that the pump is delivering.
    pub current: Option<Frame>,
    /// Frames that were replaced before the pump came for them.
    pub dropped: u64,
    /// Whether the pump's thread has yet to end.
    pub alive: bool,
}

/// One subscription.
pub struct SubEntry {
    pub id: u64,
    pub active: bool,
    pub running: bool,
    /// Whether new frames still go to this subscription.
    pub listed: bool,
    pub cb: SubCb,
    /// None where the producer makes the call itself.
    pub pump: Option<Pump>,
}

/// What became of a frame for one subscription.
#[derive(Debug)]
pub enum Delivery {
    /// The producer makes the call.
    Invoke(Invocation),
    /// The subscription is being torn down.
    Skipped,
    /// The frame lies in the mailbox; the pump is to be woken.
    Handed,
}

/// What a pump is to do next.
#[derive(Debug)]
pub enum PumpStep {
    /// Sleep until woken.
    Wait,
    /// Make the call.
    Invoke(Invocation),
    /// A frame was let go of because the subscription is being torn down.
    Skipped,
    /// End the thread.
    Exit,
    /// The last call has not returned.
    Busy,
}

/// What a teardown waits for.
#[derive(Clone, Copy, Debug, PartialEq, Eq, Structural)]
pub enum Teardown {
    /// The pump of this subscription is to be woken and joined.
    JoinPump(u64),
    /// A call for this subscription is in flight.
    AwaitGate(u64),
    /// The stream is to be joined.
    JoinStream,
    /// This capture, which was cancelled, is to be joined.
    JoinCapture(u64),
    /// This capture, which cannot be cancelled, is to be joined.
    JoinJob(u64),
    /// Nothing is in flight, and nothing will follow.
    Done,
}

/// The references behind an optional frame.
pub open spec fn frame_refs(f: Option<Frame>) -> Holding {
    match f {
        Some(f) => one(f.buf),
        None => nothing(),
    }
}

/// The call of `cb` with the frame at `buf`.
pub open spec fn invocation_of(cb: SubCb, buf: u64) -> Invocation {
    match cb {
        SubCb::C { cb, user } => Invocation::C { cb, user, buf: ABuf { addr: buf } },
        SubCb::Rust(f) => Invocation::Rust { f, frame: Frame { buf } },
    }
}

/// The references that a call hands to its callee.
pub open spec fn given(inv: Invocation) -> Holding {
    match inv {
        Invocation::C { .. } => nothing(),
        Invocation::Rust { frame, .. } => one(frame.buf),
    }
}

/// The references that leave with a delivery.
pub open spec fn delivery_refs(d: Delivery) -> Holding {
    match d {
        Delivery::Invoke(inv) => given(inv),
        _ => nothing(),
    }
}

/// The references that leave with a pump's step.
pub open spec fn pump_refs(s: PumpStep) -> Holding {
    match s {
        PumpStep::Invoke(inv) => given(inv),
        _ => nothing(),
    }
}

/// The mailbox after a frame was put in.
pub open spec fn put(p: Pump, buf: u64) -> Pump {
    Pump {
        slot: Some(Frame { buf }),
        dropped: if p.slot is Some {
            p.dropped.wrapping_add(1)
        } else {
            p.dropped
        },
        ..p
    }
}

/// A mailbox after a sequence of events: a buffer is put in, or (none) the
/// pump comes for what is there.
pub open spec fn mailbox(p: Pump, events: Seq<Option<u64>>) -> Pump
    decreases events.len(),
{
    if events.len() == 0 {
        p
    } else {
        let before = mailbox(p, events.drop_last());
        match events.last() {
            Some(buf) => put(before, buf),
            None => Pump { slot: None, ..before },
        }
    }
}

/// How many buffers were put in.
pub open spec fn puts(events: Seq<Option<u64>>) -> nat
    decreases events.len(),
{
    if events.len() == 0 {
        0
    } else {
        puts(events.drop_last()) + if events.last() is Some {
            1nat
        } else {
            0
        }
    }
}

/// How often the pump found a frame.
pub open spec fn takes(p: Pump, events: Seq<Option<u64>>) -> nat
    decreases events.len(),
{
    if events.len() == 0 {
        0
    } else {
        takes(p, events.drop_last()) + if events.last() is None && mailbox(
            p,
            events.drop_last(),
        ).slot is Some {
            1nat
        } else {
            0
        }
    }
}

/// Every frame that a mailbox was given was taken by the pump, or counted as
/// dropped, or still lies there; and what lies there is the newest.
pub proof fn law_mailbox_accounts_for_every_frame(p: Pump, events: Seq<Option<u64>>)
    requires
        p.slot is None,
        p.dropped == 0,
        events.len() <= u64::MAX,
    ensures
        mailbox(p, events).dropped + takes(p, events) + (if mailbox(p, events).slot is Some {
            1int
        } else {
            0
        }) == puts(events),
        events.len() > 0 ==> (events.last() matches Some(buf) ==> mailbox(p, events).slot == Some(
            Frame { buf },
        )),
        mailbox(p, events).dropped <= events.len(),
    decreases events.len(),
{
    if events.len() > 0 {
        law_mailbox_accounts_for_every_frame(p, events.drop_last());
    }
}

/// The buffer of an optional frame.
pub open spec fn buf_of(f: Option<Frame>) -> Seq<u64> {
    match f {
        Some(f) => seq![f.buf],
        None => Seq::empty(),
    }
}

/// What giving a mailbox the frame at `buf` asks of the platform: the frame
/// that it replaces goes.
pub open spec fn replaced_calls(h: Heap, e: SubEntry, buf: u64) -> Seq<PlatformCall> {
    if e.pump is Some && e.pump->Some_0.slot is Some && e.pump->Some_0.slot->Some_0.buf != buf {
        freed(h, e.pump->Some_0.slot->Some_0.buf)
    } else {
        Seq::empty()
    }
}

impl SubEntry {
    /// The buffer in the mailbox.
    pub open spec fn in_mailbox(self) -> Seq<u64> {
        match self.pump {
            Some(p) => buf_of(p.slot),
            None => Seq::empty(),
        }
    }

    /// The buffer that the pump is delivering.
    pub open spec fn in_pump(self) -> Seq<u64> {
        match self.pump {
            Some(p) => buf_of(p.current),
            None => Seq::empty(),
        }
    }

    /// The references that the entry holds.
    pub open spec fn held(self) -> Holding {
        match self.pump {
            Some(p) => both(frame_refs(p.slot), frame_refs(p.current)),
            None => nothing(),
        }
    }

    /// A call made by the pump keeps its frame until it is finished.
    pub open spec fn wf(self) -> bool {
        &&& self.listed ==> self.active
        &&& self.pump matches Some(p) ==> (p.current is Some <==> self.running)
        &&& self.pump matches Some(p) ==> (self.running ==> p.alive)
        &&& self.pump matches Some(p) ==> (self.active ==> p.alive)
    }

    /// The entry after `frame` came from the producer.
    pub open spec fn delivered(self, buf: u64) -> SubEntry {
        match self.pump {
            Some(p) => SubEntry { pump: Some(put(p, buf)), ..self },
            None => SubEntry { running: self.active, ..self },
        }
    }

    /// What the producer is to do with `frame`.
    pub open spec fn delivery(self, buf: u64) -> Delivery {
        match self.pump {
            Some(_) => Delivery::Handed,
            None => if self.active {
                Delivery::Invoke(invocation_of(self.cb, buf))
            } else {
                Delivery::Skipped
            },
        }
    }

    /// What the pump is to do next.
    pub open spec fn pump_step(self) -> PumpStep {
        match self.pump {
            None => PumpStep::Exit,
            Some(p) => if self.running {
                PumpStep::Busy
            } else {
                match p.slot {
                    Some(f) => if self.active {
                        PumpStep::Invoke(invocation_of(self.cb, f.buf))
                    } else {
                        PumpStep::Skipped
                    },
                    None => if self.active {
                        PumpStep::Wait
                    } else {
                        PumpStep::Exit
                    },
                }
            },
        }
    }

    /// The entry after the pump's step.
    pub open spec fn pumped(self) -> SubEntry {
        match self.pump {
            None => self,
            Some(p) => match self.pump_step() {
                PumpStep::Invoke(_) => SubEntry {
                    running: true,
                    pump: Some(Pump { slot: None, current: p.slot, ..p }),
                    ..self
                },
                PumpStep::Skipped => SubEntry { pump: Some(Pump { slot: None, ..p }), ..self },
                PumpStep::Exit => SubEntry { pump: Some(Pump { alive: false, ..p }), ..self },
                _ => self,
            },
        }
    }

    /// The entry after its call has returned.
    pub open spec fn finished(self) -> SubEntry {
        SubEntry {
            running: false,
            pump: match self.pump {
                Some(p) => Some(Pump { current: None, ..p }),
                None => None,
            },
            ..self
        }
    }

    /// What the teardown of this entry waits for: first the pump, whose end
    /// means that it makes no further call, then a call of the producer.
    pub open spec fn waits_for(self) -> Teardown {
        if self.pump matches Some(p) && p.alive {
            Teardown::JoinPump(self.id)
        } else if self.running {
            Teardown::AwaitGate(self.id)
        } else {
            Teardown::Done
        }
    }

    /// The call with `frame`: none once the subscription is inactive.
    pub fn invoke(&mut self, frame: &Frame, heap: &mut Heap) -> (r: Option<Invocation>)
        requires
            old(heap).wf(),
            frame.valid(*old(heap)),
            old(heap).room(frame.buf),
            !old(self).running,
        ensures
            final(heap).wf(),
            *final(self) == (SubEntry { running: old(self).active, ..*old(self) }),
            r == (if old(self).active {
                Some(invocation_of(old(self).cb, frame.buf))
            } else {
                None
            }),
            forall|q: u64|
                old(heap).live(q) ==> #[trigger] final(heap).storage(q) == old(heap).storage(q),
            old(heap).same_platform(*final(heap)),
            keeps(*old(heap), *final(heap)),
            transfer(
                *old(heap),
                *final(heap),
                nothing(),
                match r {
                    Some(inv) => given(inv),
                    None => nothing(),
                },
            ),
    {
        if !self.active {
            return None;
        }
        self.running = true;
        match self.cb {
            SubCb::C { cb, user } => Some(
                Invocation::C { cb, user, buf: ABuf { addr: frame.buf } },
            ),
            SubCb::Rust(f) => Some(Invocation::Rust { f, frame: frame.retain(heap) }),
        }
    }

    /// Takes a frame from the producer. With a mailbox the producer goes on
    /// at once; without, it makes the call itself.
    pub fn deliver(&mut self, frame: &Frame, heap: &mut Heap) -> (r: Delivery)
        requires
            old(heap).wf(),
            old(heap).covers(old(self).held()),
            frame.valid(*old(heap)),
            old(heap).room(frame.buf),
            old(self).pump is None ==> !old(self).running,
        ensures
            final(heap).wf(),
            *final(self) == old(self).delivered(frame.buf),
            r == old(self).delivery(frame.buf),
            final(heap).supply == old(heap).supply,
            final(heap).calls@ == old(heap).calls@ + replaced_calls(
                *old(heap),
                *old(self),
                frame.buf,
            ),
            keeps(*old(heap), *final(heap)),
            transfer(
                *old(heap),
                *final(heap),
                old(self).held(),
                both(final(self).held(), delivery_refs(r)),
            ),
    {
        if self.pump.is_none() {
            return match self.invoke(frame, heap) {
                Some(inv) => Delivery::Invoke(inv),
                None => Delivery::Skipped,
            };
        }
        let ghost before = *self;
        let ghost h0 = *heap;
        let fresh = frame.retain(heap);
        let ghost h1 = *heap;
        if let Some(p) = self.pump.as_mut() {
            let last = p.slot.take();
            p.slot = Some(fresh);
            if let Some(f) = last {
                p.dropped = p.dropped.wrapping_add(1);
                proof {
                    assert(before.held()(f.buf) <= h0.count(f.buf));
                    assert(h1.count(f.buf) + nothing()(f.buf) == h0.count(f.buf) + one(
                        frame.buf,
                    )(f.buf));
                }
                f.release(heap);
            }
        }
        Delivery::Handed
    }

    /// The next step of the pump's thread.
    pub fn next_pump_step(&mut self, heap: &mut Heap) -> (r: PumpStep)
        requires
            old(heap).wf(),
            old(heap).covers(old(self).held()),
            old(self).wf(),
            old(self).pump matches Some(p) ==> (p.slot matches Some(f) ==> old(heap).room(f.buf)),
        ensures
            final(heap).wf(),
            final(self).wf(),
            *final(self) == old(self).pumped(),
            r == old(self).pump_step(),
            final(heap).supply == old(heap).supply,
            final(heap).calls@ == old(heap).calls@ + match r {
                PumpStep::Skipped => freed(*old(heap), old(self).pump->Some_0.slot->Some_0.buf),
                _ => Seq::empty(),
            },
            keeps(*old(heap), *final(heap)),
            transfer(
                *old(heap),
                *final(heap),
                old(self).held(),
                both(final(self).held(), pump_refs(r)),
            ),
    {
        if self.pump.is_none() {
            return PumpStep::Exit;
        }
        if self.running {
            return PumpStep::Busy;
        }
        let ghost before = *self;
        let active = self.active;
        let mut taken: Option<Frame> = None;
        if let Some(p) = self.pump.as_mut() {
            taken = p.slot.take();
            if taken.is_none() && !active {
                p.alive = false;
            }
        }
        match taken {
            None => if active {
                PumpStep::Wait
            } else {
                PumpStep::Exit
            },
            Some(f) => {
                proof {
                    assert(before.held()(f.buf) <= heap.count(f.buf));
                }
                match self.invoke(&f, heap) {
                    Some(inv) => {
                        if let Some(p) = self.pump.as_mut() {
                            p.current = Some(f);
                        }
                        PumpStep::Invoke(inv)
                    },
                    None => {
                        f.release(heap);
                        PumpStep::Skipped
                    },
                }
            },
        }
    }

    /// The call has returned; a pump lets go of its frame.
    pub fn finish(&mut self, heap: &mut Heap)
        requires
            old(heap).wf(),
            old(heap).covers(old(self).held()),
        ensures
            final(heap).wf(),
            *final(self) == old(self).finished(),
            final(heap).supply == old(heap).supply,
            final(heap).calls@ == old(heap).calls@ + freed_all(*old(heap), old(self).in_pump()),
            keeps(*old(heap), *final(heap)),
            transfer(*old(heap), *final(heap), old(self).held(), final(self).held()),
    {
        let ghost before = *self;
        self.running = false;
        let mut last: Option<Frame> = None;
        if let Some(p) = self.pump.as_mut() {
            last = p.current.take();
        }
        proof {
            lemma_freed_one(*heap, 0);
        }
        if let Some(f) = last {
            proof {
                assert(before.held()(f.buf) <= heap.count(f.buf));
                lemma_freed_one(*heap, f.buf);
            }
            f.release(heap);
        }
    }

    /// Frames that this subscription missed. A subscription without mailbox
    /// misses none.
    pub fn dropped(&self) -> (r: u64)
        ensures
            r == (match self.pump {
                Some(p) => p.dropped,
                None => 0,
            }),
    {
        match &self.pump {
            Some(p) => p.dropped,
            None => 0,
        }
    }

    /// What the teardown of this entry waits for.
    pub fn teardown(&self) -> (r: Teardown)
        ensures
            r == self.waits_for(),
    {
        if let Some(p) = &self.pump {
            if p.alive {
                return Teardown::JoinPump(self.id);
            }
        }
        if self.running {
            Teardown::AwaitGate(self.id)
        } else {
            Teardown::Done
        }
    }

    /// Gives up the entry, and a frame that still lies in its mailbox.
    pub fn discard(self, heap: &mut Heap)
        requires
            old(heap).wf(),
            old(heap).covers(self.held()),
            self.wf(),
            self.waits_for() is Done,
        ensures
            final(heap).wf(),
            final(heap).supply == old(heap).supply,
            final(heap).calls@ == old(heap).calls@ + freed_all(*old(heap), self.in_mailbox()),
            keeps(*old(heap), *final(heap)),
            transfer(*old(heap), *final(heap), self.held(), nothing()),
    {
        let ghost before = self;
        proof {
            lemma_freed_one(*heap, 0);
        }
        let SubEntry { pump, .. } = self;
        if let Some(p) = pump {
            if let Some(f) = p.slot {
                proof {
                    assert(before.held()(f.buf) <= heap.count(f.buf));
                    lemma_freed_one(*heap, f.buf);
                }
                f.release(heap);
            }
        }
    }
}

} // verus!
