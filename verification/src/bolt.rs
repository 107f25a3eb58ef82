//! The flat module for mobile applications: producer, consumer and an event
//! stream in one surface.

use vstd::prelude::*;
use std::sync::Arc;
use boltffi::{EventSubscription, StreamProducer};
use crate::abi::{ASharedV1, AStatus, A_ABI_VERSION, A_DELIVERY_BLOCKING};
use crate::b;
use crate::capture::{CaptureJob, CAPTURE_SEED};
use crate::frame::Frame;
use crate::heap::{
    effect, freed, nothing, one, pattern, sum_bytes, transfer, Heap, FRAME_LEN,
};
use crate::oneshot::OneShot;
use crate::source::{
    filled, fresh_payload, new_state, new_window, storage_answer, stored, Producer, State, A,
};
use crate::storage::{copy_bytes, exported, zeroed};
use crate::sub::SubCb;

verus! {

/// An event as it travels through the stream: the frame's index, its first
/// byte, and its checksum.
pub type RawEvent = (u32, u8, u64);

/// `boltffi::StreamProducer`, opaque here.
#[verifier::external_type_specification]
#[verifier::external_body]
#[verifier::reject_recursive_types(T)]
pub struct ExStreamProducer<T: Send + Clone + 'static, const MAX_SUBSCRIBERS: usize>(
    boltffi::StreamProducer<T, MAX_SUBSCRIBERS>,
);

/// `boltffi::EventSubscription`, opaque here.
#[verifier::external_type_specification]
#[verifier::external_body]
#[verifier::reject_recursive_types(T)]
pub struct ExEventSubscription<T: Send + 'static>(boltffi::EventSubscription<T>);

/// The events that were pushed into a stream producer, first to last.
pub uninterp spec fn published(p: StreamProducer<RawEvent>) -> Seq<RawEvent>;

/// The capacity that a stream producer makes its subscriptions with.
pub uninterp spec fn default_capacity(p: StreamProducer<RawEvent>) -> nat;

/// The capacity that a subscription was made with.
pub uninterp spec fn made_with(s: EventSubscription<RawEvent>) -> nat;

/// The events that the producer of a subscription had published when the
/// subscription was made: it is for the events after these.
pub uninterp spec fn joined_after(s: EventSubscription<RawEvent>) -> Seq<RawEvent>;

/// `StreamProducer::new`: nothing was pushed yet, and subscriptions will be
/// made with `capacity`.
#[verifier::external_body]
fn new_events(capacity: usize) -> (r: StreamProducer<RawEvent>)
    ensures
        published(r) == Seq::<RawEvent>::empty(),
        default_capacity(r) == capacity,
{
    StreamProducer::new(capacity)
}

/// `StreamProducer::push`: the event is offered to every subscription. What
/// one of them has of it depends on the room in its own ring at that moment;
/// that is left unsaid.
#[verifier::external_body]
fn push_event(p: &mut StreamProducer<RawEvent>, event: RawEvent)
    ensures
        published(*final(p)) == published(*old(p)).push(event),
        default_capacity(*final(p)) == default_capacity(*old(p)),
{
    p.push(event)
}

/// `StreamProducer::subscribe`: a new subscription of this producer, made with
/// the default capacity; the events that were pushed before are not for it.
/// What it will hold of later ones depends on the room in its ring, on when it
/// is read, and on whether the producer had a place for it; that is left
/// unsaid. The capacity is rounded up to a power of two, so a very large one
/// is left out.
#[verifier::external_body]
fn subscribe_events(p: &StreamProducer<RawEvent>) -> (r: Arc<EventSubscription<RawEvent>>)
    requires
        default_capacity(*p) <= EVENT_CAPACITY,
    ensures
        made_with(*r) == default_capacity(*p),
        joined_after(*r) == published(*p),
{
    p.subscribe()
}

/// Capacity of every event subscription. A full one drops new events.
pub const EVENT_CAPACITY: usize = 256;

/// Errors as applications see them.
#[derive(Debug, Clone, Copy, PartialEq, Eq, Structural)]
pub enum AbError {
    InvalidArgument,
    /// An internal invariant failed; the object should only be dropped.
    Panic,
    Internal,
}

/// The error that a status is shown as.
pub open spec fn shown_error(e: AStatus) -> AbError {
    match e {
        AStatus::InvalidArgument => AbError::InvalidArgument,
        AStatus::Panic => AbError::Panic,
        _ => AbError::Internal,
    }
}

/// Reduces a status to what applications tell apart.
fn map_status(e: AStatus) -> (r: AbError)
    ensures
        r == shown_error(e),
{
    match e {
        AStatus::InvalidArgument => AbError::InvalidArgument,
        AStatus::Panic => AbError::Panic,
        _ => AbError::Internal,
    }
}

/// Geometry of a frame. The stride may exceed `cols * channels`.
#[derive(Debug, Clone, Copy, PartialEq, Eq, Structural)]
pub struct AbShape {
    pub rows: u32,
    pub cols: u32,
    pub channels: u32,
    pub row_stride: u32,
}

/// A storage descriptor in plain values; the receiver owns `fd`.
#[derive(Debug, Clone, Copy, PartialEq, Eq, Structural)]
pub struct AbFrameDesc {
    pub kind: u32,
    pub fd: i32,
    pub id: u32,
    pub len: u64,
}

/// One delivered frame, reduced to values.
#[derive(Debug, Clone, Copy, PartialEq, Eq, Structural)]
pub struct AbFrameEvent {
    pub index: u32,
    pub first_byte: u8,
    pub checksum: u64,
}

impl AbFrameEvent {
    /// Reads an event as it came out of the stream.
    pub fn from_raw(e: RawEvent) -> (r: AbFrameEvent)
        ensures
            r == (AbFrameEvent { index: e.0, first_byte: e.1, checksum: e.2 }),
    {
        AbFrameEvent { index: e.0, first_byte: e.1, checksum: e.2 }
    }
}

/// An immutable frame.
#[derive(Debug)]
pub struct AbFrame {
    pub inner: Frame,
}

impl AbFrame {
    /// The sum of the bytes, computed by the consumer library in place.
    pub fn checksum(&self, heap: &Heap) -> (r: u64)
        requires
            heap.wf(),
            self.inner.valid(*heap),
        ensures
            r == sum_bytes(heap.bytes_at(self.inner.buf)),
    {
        b::frame_checksum(&self.inner, heap)
    }

    /// The geometry.
    pub fn shape(&self, heap: &Heap) -> (r: AbShape)
        requires
            heap.wf(),
            self.inner.valid(*heap),
        ensures
            r == (AbShape { rows: 32, cols: 30, channels: 4, row_stride: 128 }),
    {
        let i = self.inner.info(heap);
        AbShape {
            rows: i.rows as u32,
            cols: i.cols as u32,
            channels: i.channels as u32,
            row_stride: i.row_stride as u32,
        }
    }

    /// A copy of the bytes.
    pub fn data(&self, heap: &Heap) -> (r: Vec<u8>)
        requires
            heap.wf(),
            self.inner.valid(*heap),
        ensures
            r@ == heap.bytes_at(self.inner.buf),
    {
        let src = self.inner.data(heap);
        let mut out = zeroed(src.len());
        copy_bytes(src, out.as_mut_slice());
        out
    }

    /// The storage descriptor.
    pub fn export_desc(&self, heap: &Heap, dup: i32) -> (r: AbFrameDesc)
        requires
            heap.wf(),
            self.inner.valid(*heap),
        ensures
            ({
                let d = exported(heap.storage(self.inner.buf), dup);
                r == (AbFrameDesc { kind: d.kind, fd: d.fd, id: d.id, len: d.len as u64 })
            }),
    {
        let d = self.inner.export(heap, dup);
        AbFrameDesc { kind: d.kind, fd: d.fd, id: d.id, len: d.len as u64 }
    }
}

/// A producer with an event stream.
pub struct AbSource {
    pub inner: A,
    pub events: StreamProducer<RawEvent>,
    /// Whether the closure that feeds the event stream is subscribed.
    pub subscribed: bool,
    /// Index of the next event.
    pub index: u32,
}

impl AbSource {
    /// A producer whose event subscriptions have the usual capacity.
    pub open spec fn valid(self, heap: Heap) -> bool {
        &&& self.inner@.valid(heap)
        &&& default_capacity(self.events) == EVENT_CAPACITY
    }

    /// A new producer without events.
    pub fn new(heap: &mut Heap, id: u64) -> (r: AbSource)
        requires
            old(heap).wf(),
        ensures
            r.valid(*final(heap)),
            new_window(r.inner@.shared, id),
            r.inner@ == new_state(r.inner@.shared, r.inner@.payload),
            published(r.events) == Seq::<RawEvent>::empty(),
            !r.subscribed,
            r.index == 0,
            fresh_payload(*old(heap), *final(heap), r.inner@.payload),
            transfer(*old(heap), *final(heap), nothing(), r.inner@.held()),
    {
        AbSource {
            inner: A::new(heap, id),
            events: new_events(EVENT_CAPACITY),
            subscribed: false,
            index: 0,
        }
    }

    /// The identity.
    pub fn id(&self) -> (r: u64)
        ensures
            r == self.inner@.shared.id,
    {
        self.inner.id()
    }

    /// The counter.
    pub fn counter(&self) -> (r: u64)
        ensures
            r == self.inner@.shared.counter,
    {
        self.inner.counter()
    }

    /// Refills the payload.
    pub fn fill(&mut self, heap: &mut Heap, seed: u8)
        requires
            old(self).valid(*old(heap)),
        ensures
            final(self).valid(*final(heap)),
            filled(
                *old(heap),
                *final(heap),
                old(self).inner@.payload,
                final(self).inner@.payload,
                seed,
            ),
            final(self).inner@ == (State {
                payload: final(self).inner@.payload,
                ..old(self).inner@
            }),
            final(self).events == old(self).events,
            final(self).subscribed == old(self).subscribed,
            final(self).index == old(self).index,
            transfer(*old(heap), *final(heap), old(self).inner@.held(), final(self).inner@.held()),
    {
        self.inner.fill(heap, seed)
    }

    /// Refills the payload; seed zero is refused.
    pub fn try_fill(&mut self, heap: &mut Heap, seed: u8) -> (r: Result<(), AbError>)
        requires
            old(self).valid(*old(heap)),
        ensures
            r == (if seed == 0 {
                Err(AbError::InvalidArgument)
            } else {
                Ok(())
            }),
            final(self).valid(*final(heap)),
            seed == 0 ==> final(self).inner@ == old(self).inner@ && *final(heap) == *old(heap),
            seed != 0 ==> final(self).inner@ == (State {
                payload: final(self).inner@.payload,
                ..old(self).inner@
            }),
            seed != 0 ==> filled(
                *old(heap),
                *final(heap),
                old(self).inner@.payload,
                final(self).inner@.payload,
                seed,
            ),
            final(self).events == old(self).events,
            final(self).subscribed == old(self).subscribed,
            final(self).index == old(self).index,
            transfer(*old(heap), *final(heap), old(self).inner@.held(), final(self).inner@.held()),
    {
        match self.inner.try_fill(heap, seed) {
            Ok(()) => Ok(()),
            Err(e) => Err(map_status(e)),
        }
    }

    /// Moves the payload into storage of another kind.
    pub fn set_storage(&mut self, heap: &mut Heap, kind: u32) -> (r: Result<(), AbError>)
        requires
            old(self).valid(*old(heap)),
        ensures
            r == (match storage_answer(old(heap).supply, kind, FRAME_LEN as int) {
                Ok(()) => Ok(()),
                Err(e) => Err(shown_error(e)),
            }),
            stored(*old(heap), *final(heap), old(self).inner@, final(self).inner@, kind),
            final(self).valid(*final(heap)),
            final(self).events == old(self).events,
            final(self).subscribed == old(self).subscribed,
            final(self).index == old(self).index,
            transfer(*old(heap), *final(heap), old(self).inner@.held(), final(self).inner@.held()),
    {
        match self.inner.set_storage(heap, kind) {
            Ok(()) => Ok(()),
            Err(e) => Err(map_status(e)),
        }
    }

    /// A snapshot of the payload.
    pub fn frame(&self, heap: &mut Heap) -> (r: AbFrame)
        requires
            self.valid(*old(heap)),
            old(heap).room(self.inner@.payload),
        ensures
            r.inner.buf == self.inner@.payload,
            self.valid(*final(heap)),
            effect(*old(heap), *final(heap), Seq::empty()),
            transfer(*old(heap), *final(heap), nothing(), one(r.inner.buf)),
    {
        AbFrame { inner: self.inner.frame(heap) }
    }

    /// Increments twice and adds the counter to the identity.
    pub fn process(&mut self) -> (r: u64)
        requires
            old(self).inner@.shared.counter + 2 <= u64::MAX,
            old(self).inner@.shared.id + old(self).inner@.shared.counter + 2 <= u64::MAX,
        ensures
            r == old(self).inner@.shared.id + old(self).inner@.shared.counter + 2,
            final(self).inner@ == (State {
                shared: ASharedV1 {
                    counter: (old(self).inner@.shared.counter + 2) as u64,
                    ..old(self).inner@.shared
                },
                ..old(self).inner@
            }),
            final(self).events == old(self).events,
            final(self).subscribed == old(self).subscribed,
            final(self).index == old(self).index,
    {
        b::process(&mut self.inner)
    }

    /// The factors of the consumer's fast path.
    pub fn process_fast(&self) -> (r: Option<(u64, u64)>)
        requires
            self.inner@.shared.abi_version >= A_ABI_VERSION ==> self.inner@.shared.id
                + self.inner@.shared.counter <= u64::MAX,
        ensures
            r == b::fast_factors(self.inner@.shared),
    {
        b::process_fast(&self.inner)
    }

    /// The sum of the payload's bytes.
    pub fn checksum(&self, heap: &Heap) -> (r: u64)
        requires
            self.valid(*heap),
        ensures
            r == sum_bytes(heap.bytes_at(self.inner@.payload)),
    {
        b::checksum(&self.inner, heap)
    }

    /// Starts a capture; `f` is the closure that completes it.
    pub fn capture(&mut self, f: u64) -> (r: (CaptureJob, OneShot<Frame>))
        requires
            old(self).inner@.wf(),
            old(self).inner@.next_job < u64::MAX,
        ensures
            r.0 == old(self).inner@.new_job(f),
            r.1 == (OneShot::<Frame> { value: None, waker: None }),
            final(self).inner@ == old(self).inner@.job_started(f),
            final(self).events == old(self).events,
            final(self).subscribed == old(self).subscribed,
            final(self).index == old(self).index,
            forall|h: Heap| old(self).valid(h) ==> #[trigger] final(self).valid(h),
    {
        self.inner.capture(f)
    }

    /// Starts a capture whose frame's checksum arrives once, when
    /// `complete_checksum` says so.
    pub fn capture_checksum(&mut self, f: u64) -> (r: (CaptureJob, OneShot<u64>))
        requires
            old(self).inner@.wf(),
            old(self).inner@.next_job < u64::MAX,
        ensures
            r.0 == old(self).inner@.new_job(f),
            r.1 == (OneShot::<u64> { value: None, waker: None }),
            final(self).inner@ == old(self).inner@.job_started(f),
            final(self).events == old(self).events,
            final(self).subscribed == old(self).subscribed,
            final(self).index == old(self).index,
            forall|h: Heap| old(self).valid(h) ==> #[trigger] final(self).valid(h),
    {
        b::capture_checksum(&mut self.inner, f)
    }

    /// The moment of such a capture: the closure and the checksum that it
    /// completes the value with, or nothing where it was called before.
    pub fn complete_checksum(&mut self, heap: &mut Heap, id: u64) -> (r: Option<(u64, u64)>)
        requires
            old(self).valid(*old(heap)),
        ensures
            final(self).valid(*final(heap)),
            match r {
                None => {
                    &&& !old(self).inner@.job_waiting(id)
                    &&& final(self).inner@ == old(self).inner@
                    &&& *final(heap) == *old(heap)
                },
                Some((cb, value)) => {
                    let job = old(self).inner@.job(id);
                    &&& old(self).inner@.job_waiting(id)
                    &&& cb == job.cb
                    &&& value == sum_bytes(pattern(CAPTURE_SEED))
                    &&& value == 522240
                    &&& final(self).inner@ == old(self).inner@.job_fired(id)
                    &&& b::summed(*old(heap), *final(heap), job.kind)
                },
            },
            final(self).events == old(self).events,
            final(self).subscribed == old(self).subscribed,
            final(self).index == old(self).index,
            transfer(*old(heap), *final(heap), nothing(), nothing()),
    {
        b::complete_checksum(&mut self.inner, heap, id)
    }

    /// A subscription to the frame events from now on.
    pub fn events(&self) -> (r: Arc<EventSubscription<RawEvent>>)
        requires
            default_capacity(self.events) == EVENT_CAPACITY,
        ensures
            made_with(*r) == EVENT_CAPACITY,
            joined_after(*r) == published(self.events),
    {
        subscribe_events(&self.events)
    }

    /// Starts a stream whose frames become events; `f` is the closure that
    /// calls `on_frame`, subscribed the first time only. Says no while an
    /// earlier stream has frames to send.
    pub fn start(&mut self, f: u64, count: u32, period_ms: u32) -> (r: bool)
        requires
            old(self).inner@.wf(),
            old(self).subscribed || old(self).inner@.next_sub < u64::MAX,
        ensures
            final(self).subscribed,
            r == (old(self).inner@.stream matches Some(p) ==> p.finished()),
            ({
                let s = if old(self).subscribed {
                    old(self).inner@
                } else {
                    old(self).inner@.subscribed(SubCb::Rust(f), A_DELIVERY_BLOCKING)
                };
                final(self).inner@ == if r {
                    State {
                        stream: Some(
                            Producer {
                                count,
                                period_ms,
                                kind: s.frame_kind,
                                next: 0,
                                frame: None,
                                calling: None,
                                sleeping: false,
                            },
                        ),
                        ..s
                    }
                } else {
                    s
                }
            }),
            final(self).index == old(self).index,
            final(self).events == old(self).events,
            final(self).inner@.wf(),
            forall|h: Heap| old(self).valid(h) ==> #[trigger] final(self).valid(h),
    {
        if !self.subscribed {
            let _ = self.inner.subscribe(f);
            self.subscribed = true;
        }
        self.inner.stream(count, period_ms)
    }

    /// Turns a delivered frame into an event. The frame is given up.
    pub fn on_frame(&mut self, heap: &mut Heap, frame: Frame)
        requires
            old(heap).wf(),
            frame.valid(*old(heap)),
            old(self).index < u32::MAX,
        ensures
            final(heap).wf(),
            published(final(self).events) == published(old(self).events).push(
                (
                    old(self).index,
                    old(heap).bytes_at(frame.buf)[0],
                    sum_bytes(old(heap).bytes_at(frame.buf)) as u64,
                ),
            ),
            default_capacity(final(self).events) == default_capacity(old(self).events),
            final(self).index == old(self).index + 1,
            final(self).inner == old(self).inner,
            final(self).subscribed == old(self).subscribed,
            effect(*old(heap), *final(heap), freed(*old(heap), frame.buf)),
            transfer(*old(heap), *final(heap), one(frame.buf), nothing()),
    {
        let first = frame.data(heap)[0];
        let sum = b::frame_checksum(&frame, heap);
        push_event(&mut self.events, (self.index, first, sum));
        self.index = self.index + 1;
        frame.release(heap);
    }

    /// Ends a stream that has sent all its frames; says no while it has not.
    pub fn join(&mut self) -> (r: bool)
        requires
            old(self).inner@.wf(),
        ensures
            r == (old(self).inner@.stream matches Some(p) ==> p.finished()),
            final(self).inner@ == if r {
                State { stream: None, ..old(self).inner@ }
            } else {
                old(self).inner@
            },
            final(self).events == old(self).events,
            final(self).subscribed == old(self).subscribed,
            final(self).index == old(self).index,
            forall|h: Heap| old(self).valid(h) ==> #[trigger] final(self).valid(h),
    {
        self.inner.stream_join()
    }
}

/// Applications tell an invalid argument and a panic apart from each other
/// and from everything else.
pub proof fn law_shown_errors(e: AStatus)
    ensures
        shown_error(e) == AbError::InvalidArgument <==> e == AStatus::InvalidArgument,
        shown_error(e) == AbError::Panic <==> e == AStatus::Panic,
        shown_error(e) == AbError::Internal <==> e != AStatus::InvalidArgument && e
            != AStatus::Panic,
{
}

} // verus!
