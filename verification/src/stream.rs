//! An iterator over a subscription: the pull-shaped view of the push-shaped
//! callbacks.

use vstd::prelude::*;
use std::collections::VecDeque;
use crate::abi::A_DELIVERY_BLOCKING;
use crate::frame::Frame;
use crate::heap::{both, effect, freed, nothing, one, transfer, Heap, Holding};
use crate::source::A;
use crate::sub::SubCb;

verus! {

/// References to `q` in a queue.
pub open spec fn queue_refs(s: Seq<Frame>, q: u64) -> nat
    decreases s.len(),
{
    if s.len() == 0 {
        0
    } else {
        queue_refs(s.drop_last(), q) + one(s.last().buf)(q)
    }
}

/// The references that a queue holds.
pub open spec fn queue_held(s: Seq<Frame>) -> Holding {
    |q: u64| queue_refs(s, q)
}

/// Taking the first frame out takes its reference out.
pub proof fn lemma_queue_first(s: Seq<Frame>, q: u64)
    requires
        s.len() > 0,
    ensures
        queue_refs(s, q) == queue_refs(s.drop_first(), q) + one(s[0].buf)(q),
    decreases s.len(),
{
    if s.len() == 1 {
        assert(s.drop_last() =~= s.drop_first());
    } else {
        lemma_queue_first(s.drop_last(), q);
        assert(s.drop_first().drop_last() =~= s.drop_last().drop_first());
    }
}

/// The frames of one subscription, waiting to be consumed. The queue is
/// bounded: at capacity the oldest frame goes, and is counted.
pub struct FrameStream {
    pub queue: VecDeque<Frame>,
    pub waker: Option<u64>,
    pub dropped: u64,
    pub capacity: usize,
    pub id: u64,
}

/// The queue after `frame` came in.
pub open spec fn pushed(queue: Seq<Frame>, capacity: usize, frame: Frame) -> Seq<Frame> {
    if queue.len() >= capacity {
        queue.drop_first().push(frame)
    } else {
        queue.push(frame)
    }
}

impl FrameStream {
    /// There is room for one frame at least, and never more than that many
    /// are queued.
    pub open spec fn wf(self) -> bool {
        1 <= self.capacity && self.queue@.len() <= self.capacity
    }

    /// The references that the queue holds.
    pub open spec fn held(self) -> Holding {
        queue_held(self.queue@)
    }

    /// What a frame that comes in does to the stream; `woken` is to be woken.
    pub open spec fn takes_in(self, frame: Frame, woken: Option<u64>, post: FrameStream) -> bool {
        &&& woken == self.waker
        &&& post.waker is None
        &&& post.queue@ == pushed(self.queue@, self.capacity, frame)
        &&& post.dropped == if self.queue@.len() >= self.capacity {
            self.dropped.wrapping_add(1)
        } else {
            self.dropped
        }
        &&& post.capacity == self.capacity
        &&& post.id == self.id
    }

    /// What a consumer that asks for a frame does to the stream, and gets.
    pub open spec fn asks(self, waker: u64, got: Option<Frame>, post: FrameStream) -> bool {
        &&& got == if self.queue@.len() > 0 {
            Some(self.queue@[0])
        } else {
            None
        }
        &&& post.queue@ == if self.queue@.len() > 0 {
            self.queue@.drop_first()
        } else {
            self.queue@
        }
        &&& post.waker == Some(waker)
        &&& post.dropped == self.dropped
        &&& post.capacity == self.capacity
        &&& post.id == self.id
    }

    /// Whether this is a stream without frames for subscription `id`. A
    /// capacity of zero is taken as one.
    pub open spec fn is_new(self, capacity: usize, id: u64) -> bool {
        &&& self.wf()
        &&& self.queue@.len() == 0
        &&& self.waker is None
        &&& self.dropped == 0
        &&& self.capacity == (if capacity == 0 {
            1
        } else {
            capacity
        })
        &&& self.id == id
    }

    /// A stream without frames.
    pub(crate) fn new(id: u64, capacity: usize) -> (r: FrameStream)
        ensures
            r.is_new(capacity, id),
    {
        FrameStream {
            queue: VecDeque::new(),
            waker: None,
            dropped: 0,
            capacity: if capacity == 0 {
                1
            } else {
                capacity
            },
            id,
        }
    }

    /// The subscription's identifier: dropping the stream does not
    /// unsubscribe.
    pub fn id(&self) -> (r: u64)
        ensures
            r == self.id,
    {
        self.id
    }

    /// Frames that were discarded because the queue was full.
    pub fn dropped(&self) -> (r: u64)
        ensures
            r == self.dropped,
    {
        self.dropped
    }

    /// Frames that wait now.
    pub fn pending(&self) -> (r: usize)
        ensures
            r == self.queue@.len(),
    {
        self.queue.len()
    }

    /// Takes a frame from the subscription's callback. The returned waker, if
    /// any, is to be woken once the queue's lock is released.
    pub fn push(&mut self, heap: &mut Heap, frame: Frame) -> (r: Option<u64>)
        requires
            old(self).wf(),
            old(heap).wf(),
            old(heap).covers(both(old(self).held(), one(frame.buf))),
        ensures
            final(self).wf(),
            final(heap).wf(),
            old(self).takes_in(frame, r, *final(self)),
            effect(
                *old(heap),
                *final(heap),
                if old(self).queue@.len() >= old(self).capacity {
                    freed(*old(heap), old(self).queue@[0].buf)
                } else {
                    Seq::empty()
                },
            ),
            transfer(
                *old(heap),
                *final(heap),
                both(old(self).held(), one(frame.buf)),
                final(self).held(),
            ),
    {
        let ghost q0 = self.queue@;
        let ghost h0 = *heap;
        if self.queue.len() >= self.capacity {
            let oldest = self.queue.pop_front();
            self.dropped = self.dropped.wrapping_add(1);
            assert(self.queue@ =~= q0.drop_first());
            if let Some(f) = oldest {
                proof {
                    assert forall|q: u64| queue_refs(q0, q) == queue_refs(q0.drop_first(), q) + #[trigger] one(
                        f.buf,
                    )(q) by {
                        lemma_queue_first(q0, q);
                    }
                    assert(both(queue_held(q0), one(frame.buf))(f.buf) <= h0.count(f.buf));
                    assert(one(f.buf)(f.buf) == 1);
                }
                f.release(heap);
            }
        }
        let ghost q1 = self.queue@;
        self.queue.push_back(frame);
        proof {
            assert(self.queue@.drop_last() =~= q1);
            assert forall|q: u64| #[trigger]
                heap.count(q) + both(queue_held(q0), one(frame.buf))(q) == h0.count(q)
                    + queue_held(self.queue@)(q) by {
                assert(queue_refs(self.queue@, q) == queue_refs(q1, q) + one(frame.buf)(q));
                if q0.len() >= self.capacity {
                    lemma_queue_first(q0, q);
                    assert(heap.count(q) + one(q0[0].buf)(q) == h0.count(q) + nothing()(q));
                }
            }
            assert forall|q: u64|
                h0.count(q) > both(queue_held(q0), one(frame.buf))(q) implies #[trigger] heap.storage(
            q) == h0.storage(q) by {
                if q0.len() >= self.capacity {
                    lemma_queue_first(q0, q);
                    assert(h0.count(q) > one(q0[0].buf)(q));
                }
            }
        }
        self.waker.take()
    }

    /// The next frame, oldest first; while there is none, `waker` is woken by
    /// the next one that comes. The waker is noted before the queue is looked
    /// at, so that no frame can slip in between.
    pub fn next(&mut self, waker: u64) -> (r: Option<Frame>)
        requires
            old(self).wf(),
        ensures
            final(self).wf(),
            old(self).asks(waker, r, *final(self)),
            forall|q: u64| #[trigger]
                old(self).held()(q) == final(self).held()(q) + (match r {
                    Some(f) => one(f.buf)(q),
                    None => 0,
                }),
    {
        let ghost q0 = self.queue@;
        self.waker = Some(waker);
        let r = self.queue.pop_front();
        proof {
            if q0.len() > 0 {
                assert(self.queue@ =~= q0.drop_first());
                assert forall|q: u64| #[trigger]
                    queue_held(q0)(q) == queue_held(self.queue@)(q) + one(q0[0].buf)(q) by {
                    lemma_queue_first(q0, q);
                }
            }
        }
        r
    }
}

impl A {
    /// Subscribes the closure `f`, which is to push every frame into the
    /// returned stream. Delivery is blocking, so that the bound lies in the
    /// stream's queue alone; a capacity of zero is taken as one.
    pub fn frames(&mut self, f: u64, capacity: usize) -> (r: FrameStream)
        requires
            old(self)@.wf(),
            old(self)@.next_sub < u64::MAX,
        ensures
            r.is_new(capacity, (old(self)@.next_sub + 1) as u64),
            final(self)@ == old(self)@.subscribed(SubCb::Rust(f), A_DELIVERY_BLOCKING),
            final(self)@.wf(),
            forall|h: Heap| old(self)@.valid(h) ==> #[trigger] final(self)@.valid(h),
    {
        let id = self.subscribe_with(f, A_DELIVERY_BLOCKING);
        FrameStream::new(id, capacity)
    }
}

/// The queue of a stream after a sequence of events: a frame is pushed, or
/// (none) the consumer asks for one.
pub open spec fn queue_after(capacity: usize, events: Seq<Option<Frame>>) -> Seq<Frame>
    decreases events.len(),
{
    if events.len() == 0 {
        Seq::empty()
    } else {
        let before = queue_after(capacity, events.drop_last());
        match events.last() {
            Some(f) => pushed(before, capacity, f),
            None => if before.len() > 0 {
                before.drop_first()
            } else {
                before
            },
        }
    }
}

/// The frames that were pushed.
pub open spec fn all_pushed(events: Seq<Option<Frame>>) -> Seq<Frame>
    decreases events.len(),
{
    if events.len() == 0 {
        Seq::empty()
    } else {
        let before = all_pushed(events.drop_last());
        match events.last() {
            Some(f) => before.push(f),
            None => before,
        }
    }
}

/// How many frames were consumed.
pub open spec fn consumed(capacity: usize, events: Seq<Option<Frame>>) -> nat
    decreases events.len(),
{
    if events.len() == 0 {
        0
    } else {
        consumed(capacity, events.drop_last()) + if events.last() is None && queue_after(
            capacity,
            events.drop_last(),
        ).len() > 0 {
            1nat
        } else {
            0
        }
    }
}

/// How many frames were discarded.
pub open spec fn discarded(capacity: usize, events: Seq<Option<Frame>>) -> nat
    decreases events.len(),
{
    if events.len() == 0 {
        0
    } else {
        discarded(capacity, events.drop_last()) + if events.last() is Some && queue_after(
            capacity,
            events.drop_last(),
        ).len() >= capacity {
            1nat
        } else {
            0
        }
    }
}

/// A stream's queue is bounded and holds the newest frames in the order in
/// which they came; every frame was consumed, or discarded, or waits.
pub proof fn law_queue_is_bounded_and_ordered(capacity: usize, events: Seq<Option<Frame>>)
    requires
        1 <= capacity,
    ensures
        queue_after(capacity, events).len() <= capacity,
        queue_after(capacity, events).len() <= all_pushed(events).len(),
        queue_after(capacity, events) == all_pushed(events).skip(
            all_pushed(events).len() - queue_after(capacity, events).len(),
        ),
        all_pushed(events).len() == consumed(capacity, events) + discarded(capacity, events)
            + queue_after(capacity, events).len(),
    decreases events.len(),
{
    if events.len() > 0 {
        law_queue_is_bounded_and_ordered(capacity, events.drop_last());
    }
    assert(queue_after(capacity, events) =~= all_pushed(events).skip(
        all_pushed(events).len() - queue_after(capacity, events).len(),
    ));
}

/// A consumer that found the queue empty is the one that the next frame
/// wakes, and finds that frame.
pub proof fn law_no_lost_wakeup(
    before: FrameStream,
    waiting: FrameStream,
    after: FrameStream,
    waker: u64,
    frame: Frame,
    woken: Option<u64>,
)
    requires
        before.wf(),
        before.asks(waker, None, waiting),
        waiting.takes_in(frame, woken, after),
    ensures
        woken == Some(waker),
        after.queue@ == seq![frame],
{
    assert(after.queue@ =~= seq![frame]);
}

/// A frame that comes in is the newest of the queue, behind all that waited,
/// of which the oldest goes, and is counted, exactly where the queue is full;
/// whoever waits is woken. A consumer gets the oldest, or nothing exactly
/// where nothing waits, and is the one to wake next.
pub proof fn law_stream_step(
    before: FrameStream,
    after: FrameStream,
    frame: Frame,
    woken: Option<u64>,
    waker: u64,
    got: Option<Frame>,
)
    requires
        before.wf(),
    ensures
        before.takes_in(frame, woken, after) ==> {
            &&& after.wf()
            &&& after.queue@.len() > 0
            &&& after.queue@.last() == frame
            &&& woken == before.waker
            &&& after.waker is None
            &&& after.capacity == before.capacity
            &&& after.id == before.id
            &&& before.queue@.len() < before.capacity ==> after.queue@.drop_last() == before.queue@
                && after.dropped == before.dropped
            &&& before.queue@.len() == before.capacity ==> after.queue@.drop_last()
                == before.queue@.skip(1) && (before.dropped < u64::MAX ==> after.dropped
                == before.dropped + 1)
        },
        before.asks(waker, got, after) ==> {
            &&& after.wf()
            &&& got is None <==> before.queue@.len() == 0
            &&& got matches Some(f) ==> before.queue@ == seq![f] + after.queue@
            &&& got is None ==> after.queue@.len() == 0
            &&& after.waker == Some(waker)
            &&& after.dropped == before.dropped
            &&& after.capacity == before.capacity
            &&& after.id == before.id
        },
{
    if before.takes_in(frame, woken, after) {
        if before.queue@.len() < before.capacity {
            assert(after.queue@.drop_last() =~= before.queue@);
        } else {
            assert(after.queue@.drop_last() =~= before.queue@.skip(1));
        }
    }
    if before.asks(waker, got, after) && got is Some {
        assert(before.queue@ =~= seq![got->Some_0] + after.queue@);
    }
}

/// A new stream is empty, has missed nothing, wakes nobody, and has room for
/// at least one frame and for as many as were asked for.
pub proof fn law_new_stream(s: FrameStream, capacity: usize, id: u64)
    requires
        s.is_new(capacity, id),
    ensures
        s.queue@.len() == 0,
        s.waker is None,
        s.dropped == 0,
        s.id == id,
        s.capacity >= 1,
        capacity >= 1 ==> s.capacity == capacity,
        capacity == 0 ==> s.capacity == 1,
{
}

} // verus!
