//! The producer thread's work: making frames and handing them out.

use vstd::prelude::*;
use crate::frame::Frame;
use crate::heap::{
    alloc_effect, both, effect, freed, made_storage, making_calls, nothing, transfer, Heap,
};
use crate::laws::{happens, Event};
use crate::source::{
    index_of, lemma_covers, lemma_index_of, lemma_lift, lemma_listed_known, listed_ids,
    producer_refs, Producer, ProducerStep, State, A,
};
use crate::storage::PlatformCall;
use crate::sub::{delivery_refs, frame_refs, replaced_calls, Delivery};
use crate::subscribe::{lemma_entry_covered, lemma_same_held, lemma_wf_update};

verus! {

/// The low byte of a frame's index: its first byte.
pub open spec fn frame_seed(index: u32) -> u8 {
    (index % 256) as u8
}

/// What the producer thread's next step is, and what it does to the state.
/// `fresh` is the buffer of a frame that the step makes.
pub open spec fn produces(pre: State, post: State, out: ProducerStep, fresh: u64) -> bool {
    match pre.stream {
        None => out is Idle && post == pre,
        Some(p) => match p.calling {
            Some(id) => out == ProducerStep::Busy(id) && post == pre,
            None => match p.frame {
                None => if p.next == p.count {
                    out is Done && post == pre
                } else {
                    &&& out == (ProducerStep::Produced { index: p.next })
                    &&& post == (State {
                        pending: listed_ids(pre.subs),
                        stream: Some(Producer { frame: Some(Frame { buf: fresh }), ..p }),
                        ..pre
                    })
                },
                Some(f) => if pre.pending.len() > 0 {
                    let id = pre.pending[0];
                    let i = index_of(pre.subs, id);
                    if i < 0 {
                        &&& out == (ProducerStep::Delivered { id, what: Delivery::Skipped })
                        &&& post == (State { pending: pre.pending.drop_first(), ..pre })
                    } else {
                        let what = pre.subs[i].delivery(f.buf);
                        &&& out == (ProducerStep::Delivered { id, what })
                        &&& post == (State {
                            pending: pre.pending.drop_first(),
                            subs: pre.subs.update(i, pre.subs[i].delivered(f.buf)),
                            stream: if what is Invoke {
                                Some(Producer { calling: Some(id), ..p })
                            } else {
                                pre.stream
                            },
                            ..pre
                        })
                    }
                } else if !p.sleeping {
                    &&& out == ProducerStep::Sleep(p.period_ms)
                    &&& post == (State {
                        stream: Some(Producer { sleeping: true, ..p }),
                        ..pre
                    })
                } else {
                    &&& out == (ProducerStep::Retired { index: p.next })
                    &&& post == (State {
                        stream: Some(
                            Producer {
                                frame: None,
                                next: (p.next + 1) as u32,
                                sleeping: false,
                                ..p
                            },
                        ),
                        ..pre
                    })
                },
            },
        },
    }
}

/// What the producer thread's next step asks of the platform: making a frame,
/// letting go of one that a newer one replaces, or of the one in hand.
pub open spec fn producer_calls(h: Heap, s: State, out: ProducerStep) -> Seq<PlatformCall> {
    match out {
        ProducerStep::Produced { index } => making_calls(
            h.supply,
            frame_seed(index),
            s.stream->Some_0.kind,
        ),
        ProducerStep::Delivered { id, .. } => if index_of(s.subs, id) >= 0 {
            replaced_calls(h, s.subs[index_of(s.subs, id)], s.emitting()->Some_0.buf)
        } else {
            Seq::empty()
        },
        ProducerStep::Retired { .. } => freed(h, s.emitting()->Some_0.buf),
        _ => Seq::empty(),
    }
}

/// What the step does to the heap beyond counting.
pub open spec fn producer_effect(pre: Heap, post: Heap, s: State, out: ProducerStep) -> bool {
    match out {
        ProducerStep::Produced { .. } => alloc_effect(
            pre,
            post,
            s.stream->Some_0.kind,
            producer_calls(pre, s, out),
        ),
        _ => effect(pre, post, producer_calls(pre, s, out)),
    }
}

impl A {
    /// Whether `producer_step` can count the reference that it may hand out.
    pub fn can_emit(&self, heap: &Heap) -> (r: bool)
        ensures
            r == self@.emit_room(*heap),
    {
        match &self.stream {
            Some(p) => match &p.frame {
                Some(f) => heap.ref_count(f.buf) < usize::MAX,
                None => true,
            },
            None => true,
        }
    }

    /// Starts a stream of `count` frames with pauses of `period_ms`
    /// milliseconds. Says no while an earlier stream has frames to send: the
    /// caller joins that first. The caller starts a thread that follows
    /// `producer_step`.
    pub fn stream(&mut self, count: u32, period_ms: u32) -> (r: bool)
        requires
            old(self)@.wf(),
        ensures
            r == (old(self)@.stream matches Some(p) ==> p.finished()),
            final(self)@ == if r {
                State {
                    stream: Some(
                        Producer {
                            count,
                            period_ms,
                            kind: old(self)@.frame_kind,
                            next: 0,
                            frame: None,
                            calling: None,
                            sleeping: false,
                        },
                    ),
                    ..old(self)@
                }
            } else {
                old(self)@
            },
            final(self)@.wf(),
            r ==> happens(old(self)@, Event::Stream { count, period_ms }, final(self)@),
            forall|h: Heap| old(self)@.valid(h) ==> #[trigger] final(self)@.valid(h),
    {
        if !self.stream_join() {
            return false;
        }
        let ghost s1 = self@;
        self.stream = Some(
            Producer {
                count,
                period_ms,
                kind: self.frame_kind,
                next: 0,
                frame: None,
                calling: None,
                sleeping: false,
            },
        );
        proof {
            lemma_same_held(s1, self@);
        }
        true
    }

    /// Ends a stream that has sent all its frames. Says no while it has not:
    /// the caller waits for the producer thread and asks again.
    pub fn stream_join(&mut self) -> (r: bool)
        requires
            old(self)@.wf(),
        ensures
            r == (old(self)@.stream matches Some(p) ==> p.finished()),
            final(self)@ == if r {
                State { stream: None, ..old(self)@ }
            } else {
                old(self)@
            },
            final(self)@.wf(),
            r ==> happens(old(self)@, Event::Join, final(self)@),
            forall|h: Heap| old(self)@.valid(h) ==> #[trigger] final(self)@.valid(h),
    {
        let ghost s0 = self@;
        if let Some(p) = &self.stream {
            if p.frame.is_some() || p.next != p.count {
                return false;
            }
        }
        self.stream = None;
        proof {
            lemma_same_held(s0, self@);
        }
        true
    }

    /// The next step of the producer thread.
    pub fn producer_step(&mut self, heap: &mut Heap) -> (r: ProducerStep)
        requires
            old(self)@.valid(*old(heap)),
            old(self)@.emit_room(*old(heap)),
        ensures
            exists|fresh: u64| #[trigger] produces(old(self)@, final(self)@, r, fresh),
            r matches ProducerStep::Produced { index } ==> {
                let buf = final(self)@.emitting()->Some_0.buf;
                &&& final(self)@.emitting() is Some
                &&& old(heap).count(buf) == 0
                &&& final(heap).count(buf) == 1
                &&& final(heap).storage(buf) == made_storage(
                    old(heap).supply,
                    frame_seed(index),
                    old(self)@.stream->Some_0.kind,
                )
            },
            producer_effect(*old(heap), *final(heap), old(self)@, r),
            final(self)@.valid(*final(heap)),
            transfer(
                *old(heap),
                *final(heap),
                old(self)@.held(),
                both(final(self)@.held(), producer_refs(r)),
            ),
    {
        let ghost s0 = self@;
        let ghost h0 = *heap;
        if self.stream.is_none() {
            assert(produces(s0, self@, ProducerStep::Idle, 0));
            return ProducerStep::Idle;
        }
        let (calling, in_hand, sleeping, index, count, kind, period_ms): (
            Option<u64>,
            bool,
            bool,
            u32,
            u32,
            u32,
            u32,
        ) = match &self.stream {
            Some(p) => (
                p.calling,
                p.frame.is_some(),
                p.sleeping,
                p.next,
                p.count,
                p.kind,
                p.period_ms,
            ),
            None => (None, false, false, 0, 0, 0, 0),
        };
        if let Some(id) = calling {
            assert(produces(s0, self@, ProducerStep::Busy(id), 0));
            return ProducerStep::Busy(id);
        }
        if !in_hand {
            if index == count {
                assert(produces(s0, self@, ProducerStep::Done, 0));
                return ProducerStep::Done;
            }
            return self.produce(heap, index, kind);
        }
        if self.pending.len() > 0 {
            return self.hand_out(heap);
        }
        if !sleeping {
            if let Some(p) = self.stream.as_mut() {
                p.sleeping = true;
            }
            proof {
                assert(produces(s0, self@, ProducerStep::Sleep(period_ms), 0));
                lemma_same_held(s0, self@);
            }
            return ProducerStep::Sleep(period_ms);
        }
        let mut last: Option<Frame> = None;
        if let Some(p) = self.stream.as_mut() {
            last = p.frame.take();
            p.next = index + 1;
            p.sleeping = false;
        }
        if let Some(f) = last {
            assert(s0.held()(f.buf) <= h0.count(f.buf));
            f.release(heap);
            proof {
                assert(produces(s0, self@, ProducerStep::Retired { index }, 0));
                lemma_in_hand(h0, *heap, s0, self@);
            }
        }
        ProducerStep::Retired { index }
    }

    /// Makes frame `index` and notes who gets it.
    fn produce(&mut self, heap: &mut Heap, index: u32, kind: u32) -> (r: ProducerStep)
        requires
            old(self)@.valid(*old(heap)),
            old(self)@.stream matches Some(p) && p.calling is None && p.frame is None && p.next
                == index && p.kind == kind && index < p.count,
        ensures
            produces(old(self)@, final(self)@, r, final(self)@.emitting()->Some_0.buf),
            r is Produced,
            old(heap).count(final(self)@.emitting()->Some_0.buf) == 0,
            final(heap).count(final(self)@.emitting()->Some_0.buf) == 1,
            final(heap).storage(final(self)@.emitting()->Some_0.buf) == made_storage(
                old(heap).supply,
                frame_seed(index),
                kind,
            ),
            producer_effect(*old(heap), *final(heap), old(self)@, r),
            final(self)@.valid(*final(heap)),
            transfer(
                *old(heap),
                *final(heap),
                old(self)@.held(),
                both(final(self)@.held(), nothing()),
            ),
    {
        let ghost s0 = self@;
        let ghost h0 = *heap;
        let buf = heap.make_frame((index % 256) as u8, kind);
        let ids = self.snapshot();
        self.pending = ids;
        if let Some(p) = self.stream.as_mut() {
            p.frame = Some(Frame { buf });
        }
        proof {
            assert(self@ =~= (State {
                pending: listed_ids(s0.subs),
                stream: Some(
                    Producer { frame: Some(Frame { buf }), ..s0.stream->Some_0 },
                ),
                ..s0
            }));
            lemma_listed_known(s0);
            lemma_in_hand(h0, *heap, s0, self@);
        }
        ProducerStep::Produced { index }
    }

    /// The subscriptions that a new frame goes to.
    fn snapshot(&self) -> (r: Vec<u64>)
        ensures
            r@ == listed_ids(self@.subs),
    {
        let n = self.subs.len();
        let mut ids: Vec<u64> = Vec::new();
        let mut i: usize = 0;
        while i < n
            invariant
                n == self.subs@.len(),
                i <= n,
                ids@ == listed_ids(self.subs@.take(i as int)),
            decreases n - i,
        {
            assert(self.subs@.take(i + 1).drop_last() =~= self.subs@.take(i as int));
            if self.subs[i].listed {
                ids.push(self.subs[i].id);
            }
            i = i + 1;
        }
        assert(self.subs@.take(n as int) =~= self.subs@);
        ids
    }

    /// Gives the frame in hand to the next subscription.
    fn hand_out(&mut self, heap: &mut Heap) -> (r: ProducerStep)
        requires
            old(self)@.valid(*old(heap)),
            old(self)@.emit_room(*old(heap)),
            old(self)@.stream matches Some(p) && p.calling is None && p.frame is Some,
            old(self)@.pending.len() > 0,
        ensures
            produces(old(self)@, final(self)@, r, 0),
            r is Delivered,
            producer_effect(*old(heap), *final(heap), old(self)@, r),
            final(self)@.valid(*final(heap)),
            transfer(
                *old(heap),
                *final(heap),
                old(self)@.held(),
                both(final(self)@.held(), producer_refs(r)),
            ),
    {
        let ghost s0 = self@;
        let ghost h0 = *heap;
        let id = self.pending.remove(0);
        proof {
            assert(self.pending@ =~= s0.pending.drop_first());
            assert(self.pending@.no_duplicates());
        }
        let found = self.find(id);
        let mut what = Delivery::Skipped;
        if let Some(i) = found {
            proof {
                lemma_index_of(s0.subs, id);
                lemma_entry_covered(h0, s0, i as int);
                assert(s0.subs[i as int].wf());
                assert(s0.held()(s0.emitting()->Some_0.buf) <= h0.count(
                    s0.emitting()->Some_0.buf,
                ));
            }
            if let Some(p) = self.stream.as_mut() {
                if let Some(f) = p.frame.as_ref() {
                    what = self.subs[i].deliver(f, heap);
                }
                if let Delivery::Invoke(_) = what {
                    p.calling = Some(id);
                }
            }
            proof {
                let e = s0.subs[i as int].delivered(s0.emitting()->Some_0.buf);
                assert(self.subs@ =~= s0.subs.update(i as int, e));
                lemma_wf_update(s0, self@, i as int, e);
                lemma_lift(h0, *heap, s0, self@, i as int, delivery_refs(what));
                lemma_covers(h0, *heap, s0.held(), self@.held(), delivery_refs(what));
            }
        } else {
            proof {
                lemma_same_held(s0, self@);
            }
        }
        ProducerStep::Delivered { id, what }
    }
}

/// Taking a frame in hand, or letting go of it, is a step of the producer.
pub proof fn lemma_in_hand(h0: Heap, h1: Heap, s0: State, s1: State)
    requires
        h0.covers(s0.held()),
        transfer(h0, h1, frame_refs(s0.emitting()), frame_refs(s1.emitting())),
        s1.payload == s0.payload,
        s1.subs == s0.subs,
    ensures
        transfer(h0, h1, s0.held(), both(s1.held(), nothing())),
        h1.covers(s1.held()),
{
    assert forall|q: u64| #[trigger]
        h1.count(q) + s0.held()(q) == h0.count(q) + both(s1.held(), nothing())(q) by {
        assert(h1.count(q) + frame_refs(s0.emitting())(q) == h0.count(q) + frame_refs(
            s1.emitting(),
        )(q));
    }
    assert forall|q: u64| h0.count(q) > s0.held()(q) implies #[trigger] h1.storage(q)
        == h0.storage(q) by {
        assert(h0.count(q) > frame_refs(s0.emitting())(q));
    }
    lemma_covers(h0, h1, s0.held(), s1.held(), nothing());
}

} // verus!
