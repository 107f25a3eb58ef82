//! The producer's Python module, as far as it decides anything: buffer
//! requests, callbacks that the collector can see, the awaitable stream, and
//! scoped borrows for other modules.
//!
//! Python objects are named by numbers. The interpreter itself is reached
//! from outside this module.

use vstd::prelude::*;
use std::collections::VecDeque;
use crate::abi::{
    status_code, AHandle, APyCapiV1, AStatus, AVtableV1, A_DELIVERY_BLOCKING, A_PY_CAPI_ATTR,
    A_PY_CAPI_VERSION,
};
use crate::frame::Frame;
use crate::heap::{
    both, effect, frame_geometry, freed, law_other_holders_unaffected, nothing, one, transfer,
    Heap, Holding, FRAME_LEN,
};
use crate::source::{fresh_payload, new_state, new_window, A};
use crate::stream::{pushed, queue_held};
use crate::sub::{SubCb, Teardown};
use vstd::string::*;

verus! {

/// `pyo3::ffi::PyBUF_WRITABLE`, the bit of a request for a buffer that can be
/// written: 1.
#[verifier::external_body]
fn buf_writable() -> (r: i32)
    ensures
        r == 0x1,
{
    pyo3::ffi::PyBUF_WRITABLE
}

/// `pyo3::ffi::PyBUF_FORMAT`, the bit of a request that wants the element
/// format named: 4.
#[verifier::external_body]
fn buf_format() -> (r: i32)
    ensures
        r == 0x4,
{
    pyo3::ffi::PyBUF_FORMAT
}

/// `pyo3::ffi::PyBUF_STRIDES`, the bits of a request that understands strides,
/// those for a shape among them: 24.
#[verifier::external_body]
fn buf_strides() -> (r: i32)
    ensures
        r == 0x18,
{
    pyo3::ffi::PyBUF_STRIDES
}

/// `pyo3::ffi::PyBUF_C_CONTIGUOUS`, the bits of a request for rows without
/// gaps, those for strides among them: 56.
#[verifier::external_body]
fn buf_c_contiguous() -> (r: i32)
    ensures
        r == 0x38,
{
    pyo3::ffi::PyBUF_C_CONTIGUOUS
}

/// `pyo3::ffi::PyBUF_F_CONTIGUOUS`, the bits of a request for columns without
/// gaps, those for strides among them: 88.
#[verifier::external_body]
fn buf_f_contiguous() -> (r: i32)
    ensures
        r == 0x58,
{
    pyo3::ffi::PyBUF_F_CONTIGUOUS
}

/// `pyo3::ffi::PyBUF_ANY_CONTIGUOUS`, the bits of a request for either kind of
/// contiguity, those for strides among them: 152.
#[verifier::external_body]
fn buf_any_contiguous() -> (r: i32)
    ensures
        r == 0x98,
{
    pyo3::ffi::PyBUF_ANY_CONTIGUOUS
}

/// Whether a request has all bits of `mask`.
pub open spec fn has_bits(flags: i32, mask: i32) -> bool {
    flags & mask == mask
}

/// Why a buffer request is refused.
#[derive(Debug, Clone, Copy, PartialEq, Eq, Structural)]
pub enum BufferError {
    /// There is no record to fill.
    NoView,
    /// A writable buffer was asked for.
    ReadOnly,
    /// A buffer without strides was asked for.
    NeedsStrides,
    /// A contiguous buffer was asked for; rows are padded.
    NotContiguous,
}

/// The message of a refusal.
pub open spec fn buffer_error_text(e: BufferError) -> Seq<char> {
    match e {
        BufferError::NoView => "Py_buffer is null"@,
        BufferError::ReadOnly => "frame buffers are read-only"@,
        BufferError::NeedsStrides =>
        "frame is not contiguous: a strided buffer request is required"@,
        BufferError::NotContiguous => "frame has padded rows and is not contiguous"@,
    }
}

impl BufferError {
    /// The message.
    pub fn text(self) -> (r: &'static str)
        ensures
            r@ == buffer_error_text(self),
    {
        match self {
            BufferError::NoView => "Py_buffer is null",
            BufferError::ReadOnly => "frame buffers are read-only",
            BufferError::NeedsStrides =>
            "frame is not contiguous: a strided buffer request is required",
            BufferError::NotContiguous => "frame has padded rows and is not contiguous",
        }
    }
}

/// What a granted request is filled with.
#[derive(Debug, Clone, Copy, PartialEq, Eq)]
pub struct BufferView {
    /// Where the bytes start.
    pub buf: u64,
    /// Bytes without the padding of rows.
    pub len: isize,
    pub readonly: i32,
    pub itemsize: isize,
    /// Whether the element format is named.
    pub format: bool,
    pub ndim: i32,
    pub shape: (isize, isize, isize),
    pub strides: (isize, isize, isize),
}

/// The view of a frame at `buf`.
pub open spec fn granted(buf: u64, flags: i32) -> BufferView {
    let info = frame_geometry();
    BufferView {
        buf,
        len: (info.rows * info.cols * info.channels) as isize,
        readonly: 1,
        itemsize: 1,
        format: has_bits(flags, 0x4),
        ndim: 3,
        shape: (info.rows as isize, info.cols as isize, info.channels as isize),
        strides: (info.row_stride as isize, info.channels as isize, 1),
    }
}

/// The answer to a buffer request.
pub open spec fn buffer_answer(view: bool, flags: i32, buf: u64) -> Result<
    BufferView,
    BufferError,
> {
    if !view {
        Err(BufferError::NoView)
    } else if has_bits(flags, 0x1) {
        Err(BufferError::ReadOnly)
    } else if !has_bits(flags, 0x18) {
        Err(BufferError::NeedsStrides)
    } else if has_bits(flags, 0x38) || has_bits(flags, 0x58) || has_bits(flags, 0x98) {
        Err(BufferError::NotContiguous)
    } else {
        Ok(granted(buf, flags))
    }
}

/// A frame as Python sees it.
#[derive(Debug)]
pub struct PyFrame {
    pub inner: Frame,
}

impl PyFrame {
    /// Rows, columns and channels.
    pub fn shape(&self, heap: &Heap) -> (r: (usize, usize, usize))
        requires
            heap.wf(),
            self.inner.valid(*heap),
        ensures
            r == (frame_geometry().rows, frame_geometry().cols, frame_geometry().channels),
    {
        let i = self.inner.info(heap);
        (i.rows, i.cols, i.channels)
    }

    /// Bytes from row to row, from pixel to pixel, from channel to channel.
    pub fn strides(&self, heap: &Heap) -> (r: (usize, usize, usize))
        requires
            heap.wf(),
            self.inner.valid(*heap),
        ensures
            r == (frame_geometry().row_stride, frame_geometry().channels, 1usize),
    {
        let i = self.inner.info(heap);
        (i.row_stride, i.channels, 1)
    }

    /// Answers a buffer request. `view` tells whether there is a record to
    /// fill. A request for contiguity includes the bits for strides, and is
    /// refused by its own.
    pub fn getbuffer(&self, heap: &Heap, view: bool, flags: i32) -> (r: Result<
        BufferView,
        BufferError,
    >)
        requires
            heap.wf(),
            self.inner.valid(*heap),
        ensures
            r == buffer_answer(view, flags, self.inner.buf),
    {
        if !view {
            return Err(BufferError::NoView);
        }
        if flags & buf_writable() == buf_writable() {
            return Err(BufferError::ReadOnly);
        }
        if flags & buf_strides() != buf_strides() {
            return Err(BufferError::NeedsStrides);
        }
        if flags & buf_c_contiguous() == buf_c_contiguous() {
            return Err(BufferError::NotContiguous);
        }
        if flags & buf_f_contiguous() == buf_f_contiguous() {
            return Err(BufferError::NotContiguous);
        }
        if flags & buf_any_contiguous() == buf_any_contiguous() {
            return Err(BufferError::NotContiguous);
        }
        let info = self.inner.info(heap);
        Ok(
            BufferView {
                buf: self.inner.buf,
                len: (info.rows * info.cols * info.channels) as isize,
                readonly: 1,
                itemsize: 1,
                format: flags & buf_format() == buf_format(),
                ndim: 3,
                shape: (info.rows as isize, info.cols as isize, info.channels as isize),
                strides: (info.row_stride as isize, info.channels as isize, 1),
            },
        )
    }
}

/// The record that a consumer of a buffer gets, beyond the view itself. None
/// stands for null.
#[derive(Debug, Clone, Copy, PartialEq, Eq)]
pub struct FilledView {
    /// The object that the record owns one reference to.
    pub obj: Option<u64>,
    pub view: Option<BufferView>,
    pub suboffsets: Option<u64>,
}

/// The record after a request to the frame object `object`.
pub open spec fn filled_view(
    answer: Result<BufferView, BufferError>,
    object: u64,
) -> FilledView {
    match answer {
        Ok(v) => FilledView { obj: Some(object), view: Some(v), suboffsets: None },
        Err(_) => FilledView { obj: None, view: None, suboffsets: None },
    }
}

/// Fills the record for the answer to a request to the frame object
/// `object`. A granted view owns one reference to that very object, which in
/// turn owns its reference to the frame; a refused one owns nothing. There
/// are no suboffsets either way.
pub fn fill_view(answer: Result<BufferView, BufferError>, object: u64) -> (r: FilledView)
    ensures
        r == filled_view(answer, object),
        answer matches Ok(v) ==> r.obj == Some(object) && r.view == Some(v),
        answer is Err ==> r.obj is None && r.view is None,
        r.suboffsets is None,
{
    match answer {
        Ok(v) => FilledView { obj: Some(object), view: Some(v), suboffsets: None },
        Err(_) => FilledView { obj: None, view: None, suboffsets: None },
    }
}

/// Whether releasing a buffer has a shape and strides to give back: where
/// there is a record and it has some.
pub fn releasebuffer(view: bool, internal: bool) -> (r: bool)
    ensures
        r == (view && internal),
{
    view && internal
}

/// A granted view keeps the bytes alive, whoever else lets go of the frame:
/// it owns the frame object, that object owns one reference, and while that
/// is counted, nothing that the holders of the other references do frees the
/// buffer or changes a byte of it.
pub proof fn law_granted_view_keeps_the_bytes(
    flags: i32,
    frame: PyFrame,
    object: u64,
    v: BufferView,
    pre: Heap,
    post: Heap,
    m0: Holding,
    m1: Holding,
)
    requires
        buffer_answer(true, flags, frame.inner.buf) == Ok::<BufferView, BufferError>(v),
        transfer(pre, post, m0, m1),
        pre.covers(both(m0, one(frame.inner.buf))),
    ensures
        filled_view(buffer_answer(true, flags, frame.inner.buf), object).obj == Some(object),
        v.buf == frame.inner.buf,
        post.live(v.buf),
        post.bytes_at(v.buf) == pre.bytes_at(v.buf),
        post.covers(both(m1, one(v.buf))),
{
    law_other_holders_unaffected(pre, post, m0, m1, one(frame.inner.buf));
    assert(one(frame.inner.buf)(frame.inner.buf) > 0);
}

/// A granted view is read-only and strided, never answers a request for
/// contiguity, and every element that its shape and strides reach lies
/// inside the frame.
pub proof fn law_granted_views_are_safe(
    flags: i32,
    buf: u64,
    v: BufferView,
    i: int,
    j: int,
    k: int,
)
    requires
        buffer_answer(true, flags, buf) == Ok::<BufferView, BufferError>(v),
        0 <= i < v.shape.0,
        0 <= j < v.shape.1,
        0 <= k < v.shape.2,
    ensures
        v.readonly == 1,
        !has_bits(flags, 0x1),
        has_bits(flags, 0x18),
        !has_bits(flags, 0x38) && !has_bits(flags, 0x58) && !has_bits(flags, 0x98),
        v.len == v.shape.0 * v.shape.1 * v.shape.2,
        0 <= i * v.strides.0 + j * v.strides.1 + k * v.strides.2 < FRAME_LEN,
{
    assert(0 <= i * 128 + j * 4 + k * 1 < 4096) by (nonlinear_arith)
        requires
            0 <= i < 32,
            0 <= j < 30,
            0 <= k < 4,
    ;
}

/// One subscription's callable: shared between the object, which the
/// collector traverses, and the closure that delivers.
#[derive(Debug, Clone, Copy, PartialEq, Eq, Structural)]
pub struct CallbackSlot {
    pub id: u64,
    pub callable: Option<u64>,
}

/// The callables of one producer object.
pub struct Callbacks {
    pub slots: Vec<CallbackSlot>,
}

/// The callables that are held, in order.
pub open spec fn reachable(s: Seq<CallbackSlot>) -> Seq<u64>
    decreases s.len(),
{
    if s.len() == 0 {
        Seq::empty()
    } else {
        match s.last().callable {
            Some(c) => reachable(s.drop_last()).push(c),
            None => reachable(s.drop_last()),
        }
    }
}

/// Where the slot `id` stands, -1 if nowhere.
pub open spec fn slot_index(s: Seq<CallbackSlot>, id: u64) -> int
    decreases s.len(),
{
    if s.len() == 0 {
        -1
    } else if s.last().id == id {
        s.len() - 1
    } else {
        slot_index(s.drop_last(), id)
    }
}

/// The slots with their callables dropped.
pub open spec fn cleared(s: Seq<CallbackSlot>) -> Seq<CallbackSlot> {
    s.map(|i: int, c: CallbackSlot| CallbackSlot { callable: None, ..c })
}

impl Callbacks {
    /// No callables.
    pub fn new() -> (r: Callbacks)
        ensures
            r.slots@ == Seq::<CallbackSlot>::empty(),
    {
        Callbacks { slots: Vec::new() }
    }

    /// Holds a callable for subscription `id`.
    pub fn subscribe(&mut self, id: u64, callable: u64)
        ensures
            final(self).slots@ == old(self).slots@.push(
                CallbackSlot { id, callable: Some(callable) },
            ),
    {
        self.slots.push(CallbackSlot { id, callable: Some(callable) });
    }

    /// The callable that a delivery for `id` calls; none once the collector
    /// has dropped it.
    pub fn deliver(&self, id: u64) -> (r: Option<u64>)
        ensures
            ({
                let i = slot_index(self.slots@, id);
                r == if i >= 0 {
                    self.slots@[i].callable
                } else {
                    None
                }
            }),
    {
        let n = self.slots.len();
        let mut i: usize = n;
        assert(self.slots@.take(n as int) =~= self.slots@);
        while i > 0
            invariant
                n == self.slots@.len(),
                i <= n,
                slot_index(self.slots@, id) == slot_index(self.slots@.take(i as int), id),
            decreases i,
        {
            assert(self.slots@.take(i as int).drop_last() =~= self.slots@.take(i - 1));
            if self.slots[i - 1].id == id {
                return self.slots[i - 1].callable;
            }
            i = i - 1;
        }
        None
    }

    /// Every callable that the object keeps alive, each as often as it is
    /// held: what the collector is told.
    pub fn traverse(&self) -> (r: Vec<u64>)
        ensures
            r@ == reachable(self.slots@),
    {
        let n = self.slots.len();
        let mut out: Vec<u64> = Vec::new();
        let mut i: usize = 0;
        while i < n
            invariant
                n == self.slots@.len(),
                i <= n,
                out@ == reachable(self.slots@.take(i as int)),
            decreases n - i,
        {
            assert(self.slots@.take(i + 1).drop_last() =~= self.slots@.take(i as int));
            if let Some(c) = self.slots[i].callable {
                out.push(c);
            }
            i = i + 1;
        }
        assert(self.slots@.take(n as int) =~= self.slots@);
        out
    }

    /// Drops every callable, which breaks cycles. The subscriptions stay:
    /// removing one waits for a callback that may need this very thread.
    pub fn clear(&mut self)
        ensures
            final(self).slots@ == cleared(old(self).slots@),
    {
        let n = self.slots.len();
        let mut i: usize = 0;
        while i < n
            invariant
                n == self.slots@.len(),
                n == old(self).slots@.len(),
                i <= n,
                forall|j: int| 0 <= j < i ==> self.slots@[j] == cleared(old(self).slots@)[j],
                forall|j: int| i <= j < n ==> self.slots@[j] == old(self).slots@[j],
            decreases n - i,
        {
            self.slots[i].callable = None;
            i = i + 1;
        }
        assert(self.slots@ =~= cleared(old(self).slots@));
    }

    /// Forgets subscription `id`, once its teardown is done.
    pub fn unsubscribe(&mut self, id: u64)
        ensures
            final(self).slots@ == old(self).slots@.filter(|c: CallbackSlot| c.id != id),
    {
        let n = self.slots.len();
        let mut kept: Vec<CallbackSlot> = Vec::new();
        let mut i: usize = 0;
        while i < n
            invariant
                n == self.slots@.len(),
                i <= n,
                *self == *old(self),
                kept@ == self.slots@.take(i as int).filter(|c: CallbackSlot| c.id != id),
            decreases n - i,
        {
            proof {
                reveal(Seq::filter);
                assert(self.slots@.take(i + 1).drop_last() =~= self.slots@.take(i as int));
            }
            let c = self.slots[i];
            if c.id != id {
                kept.push(c);
            }
            i = i + 1;
        }
        assert(self.slots@.take(n as int) =~= self.slots@);
        self.slots = kept;
    }
}

/// After the collector has cleared an object, nothing is reachable from it
/// and no delivery calls anything, though the subscriptions still exist.
pub proof fn law_cleared_object_reaches_nothing(s: Seq<CallbackSlot>)
    ensures
        reachable(cleared(s)) == Seq::<u64>::empty(),
        cleared(s).len() == s.len(),
        forall|i: int| 0 <= i < s.len() ==> (#[trigger] cleared(s)[i]).id == s[i].id && cleared(
            s,
        )[i].callable is None,
    decreases s.len(),
{
    if s.len() > 0 {
        law_cleared_object_reaches_nothing(s.drop_last());
        assert(cleared(s).drop_last() =~= cleared(s.drop_last()));
    }
}

/// The state of an awaitable stream: frames that wait for a consumer, or a
/// consumer that waits for a frame.
pub struct StreamState {
    pub queue: VecDeque<Frame>,
    /// The event loop and the future of a consumer that waits.
    pub pending: Option<(u64, u64)>,
    pub dropped: u64,
    pub capacity: usize,
}

/// What becomes of a delivered frame.
#[derive(Debug)]
pub enum StreamDelivery {
    /// The waiting consumer's future is completed with it.
    HandOver { event_loop: u64, fut: u64, frame: Frame },
    /// It waits in the queue.
    Queued,
}

/// What a consumer that asks for a frame gets.
#[derive(Debug)]
pub enum Next {
    /// The future is completed with this frame now.
    Ready(Frame),
    /// The future is parked until a frame comes.
    Parked,
    /// Somebody is waiting already.
    AlreadyAwaited,
}

/// The message for a second consumer.
pub const ALREADY_AWAITED: &'static str =
    "FrameStream is already being awaited; async iterators are single-consumer";

/// The references that leave with a delivery.
pub open spec fn stream_delivery_refs(d: StreamDelivery) -> Holding {
    match d {
        StreamDelivery::HandOver { frame, .. } => one(frame.buf),
        StreamDelivery::Queued => nothing(),
    }
}

/// The references that a consumer gets.
pub open spec fn next_refs(n: Next) -> Holding {
    match n {
        Next::Ready(frame) => one(frame.buf),
        _ => nothing(),
    }
}

impl StreamState {
    /// The queue is bounded, and nobody waits while it has frames.
    pub open spec fn wf(self) -> bool {
        &&& 1 <= self.capacity
        &&& self.queue@.len() <= self.capacity
        &&& self.pending is Some ==> self.queue@.len() == 0
    }

    /// The references that the queue holds.
    pub open spec fn held(self) -> Holding {
        queue_held(self.queue@)
    }

    /// What a frame that comes in does to the stream: it goes straight to a
    /// consumer that waits, else into the queue, from which the oldest goes
    /// at capacity.
    pub open spec fn takes_in(self, frame: Frame, r: StreamDelivery, post: StreamState) -> bool {
        &&& post.capacity == self.capacity
        &&& post.pending is None
        &&& match self.pending {
            Some((event_loop, fut)) => {
                &&& r == (StreamDelivery::HandOver { event_loop, fut, frame })
                &&& post.queue@ == self.queue@
                &&& post.dropped == self.dropped
            },
            None => {
                &&& r is Queued
                &&& post.queue@ == pushed(self.queue@, self.capacity, frame)
                &&& post.dropped == self.dropped + (if self.queue@.len() >= self.capacity {
                    1int
                } else {
                    0
                })
            },
        }
    }

    /// What a consumer that asks with a future of an event loop does to the
    /// stream, and gets.
    pub open spec fn asks(self, event_loop: u64, fut: u64, r: Next, post: StreamState) -> bool {
        &&& post.capacity == self.capacity
        &&& post.dropped == self.dropped
        &&& if self.queue@.len() > 0 {
            &&& r == Next::Ready(self.queue@[0])
            &&& post.queue@ == self.queue@.drop_first()
            &&& post.pending == self.pending
        } else if self.pending is Some {
            &&& r is AlreadyAwaited
            &&& post.queue@ == self.queue@
            &&& post.pending == self.pending
        } else {
            &&& r is Parked
            &&& post.queue@ == self.queue@
            &&& post.pending == Some((event_loop, fut))
        }
    }

    /// An empty stream; a capacity of zero is taken as one.
    pub fn new(capacity: usize) -> (r: StreamState)
        ensures
            r.wf(),
            r.queue@.len() == 0,
            r.pending is None,
            r.dropped == 0,
            r.capacity == (if capacity == 0 {
                1
            } else {
                capacity
            }),
    {
        StreamState {
            queue: VecDeque::new(),
            pending: None,
            dropped: 0,
            capacity: if capacity == 0 {
                1
            } else {
                capacity
            },
        }
    }

    /// Takes a frame: straight to a consumer that waits, else into the
    /// queue, from which the oldest goes at capacity.
    pub fn deliver(&mut self, heap: &mut Heap, frame: Frame) -> (r: StreamDelivery)
        requires
            old(self).wf(),
            old(heap).wf(),
            old(heap).covers(both(old(self).held(), one(frame.buf))),
            old(self).pending is None && old(self).queue@.len() >= old(self).capacity ==> old(
                self,
            ).dropped < u64::MAX,
        ensures
            final(self).wf(),
            final(heap).wf(),
            old(self).takes_in(frame, r, *final(self)),
            r is HandOver ==> *final(heap) == *old(heap),
            effect(
                *old(heap),
                *final(heap),
                if old(self).pending is None && old(self).queue@.len() >= old(self).capacity {
                    freed(*old(heap), old(self).queue@[0].buf)
                } else {
                    Seq::empty()
                },
            ),
            transfer(
                *old(heap),
                *final(heap),
                both(old(self).held(), one(frame.buf)),
                both(final(self).held(), stream_delivery_refs(r)),
            ),
    {
        let ghost q0 = self.queue@;
        let ghost h0 = *heap;
        if let Some((event_loop, fut)) = self.pending.take() {
            return StreamDelivery::HandOver { event_loop, fut, frame };
        }
        if self.queue.len() >= self.capacity {
            let oldest = self.queue.pop_front();
            self.dropped = self.dropped + 1;
            assert(self.queue@ =~= q0.drop_first());
            if let Some(f) = oldest {
                proof {
                    crate::stream::lemma_queue_first(q0, f.buf);
                    assert(both(queue_held(q0), one(frame.buf))(f.buf) <= h0.count(f.buf));
                }
                f.release(heap);
            }
        }
        let ghost q1 = self.queue@;
        self.queue.push_back(frame);
        proof {
            let m0 = both(queue_held(q0), one(frame.buf));
            let m1 = both(queue_held(self.queue@), nothing());
            assert(self.queue@.drop_last() =~= q1);
            assert forall|q: u64| #[trigger] heap.count(q) + m0(q) == h0.count(q) + m1(q) by {
                assert(crate::stream::queue_refs(self.queue@, q) == crate::stream::queue_refs(
                    q1,
                    q,
                ) + one(frame.buf)(q));
                if q0.len() >= self.capacity {
                    crate::stream::lemma_queue_first(q0, q);
                    assert(heap.count(q) + one(q0[0].buf)(q) == h0.count(q) + nothing()(q));
                }
            }
            assert forall|q: u64| h0.count(q) > m0(q) implies #[trigger] heap.storage(q)
                == h0.storage(q) by {
                if q0.len() >= self.capacity {
                    crate::stream::lemma_queue_first(q0, q);
                    assert(h0.count(q) > one(q0[0].buf)(q));
                }
            }
        }
        StreamDelivery::Queued
    }

    /// Asks for the next frame with a future of an event loop.
    pub fn next(&mut self, event_loop: u64, fut: u64) -> (r: Next)
        requires
            old(self).wf(),
        ensures
            final(self).wf(),
            old(self).asks(event_loop, fut, r, *final(self)),
            forall|q: u64| #[trigger]
                old(self).held()(q) == final(self).held()(q) + next_refs(r)(q),
    {
        let ghost q0 = self.queue@;
        if let Some(frame) = self.queue.pop_front() {
            proof {
                assert(self.queue@ =~= q0.drop_first());
                assert forall|q: u64| #[trigger]
                    queue_held(q0)(q) == queue_held(self.queue@)(q) + one(frame.buf)(q) by {
                    crate::stream::lemma_queue_first(q0, q);
                }
            }
            return Next::Ready(frame);
        }
        if self.pending.is_some() {
            return Next::AlreadyAwaited;
        }
        self.pending = Some((event_loop, fut));
        Next::Parked
    }

    /// Frames that were discarded because the queue was full.
    pub fn dropped(&self) -> (r: u64)
        ensures
            r == self.dropped,
    {
        self.dropped
    }

    /// Frames that wait.
    pub fn pending(&self) -> (r: usize)
        ensures
            r == self.queue@.len(),
    {
        self.queue.len()
    }
}

/// A consumer that was parked is the one that the next frame goes to, and a
/// second consumer that asks meanwhile is refused and changes nothing.
pub proof fn law_parked_consumer_gets_the_next_frame(
    before: StreamState,
    parked: StreamState,
    asked: StreamState,
    after: StreamState,
    first: (u64, u64),
    second: (u64, u64),
    answer: Next,
    frame: Frame,
    delivery: StreamDelivery,
)
    requires
        before.wf(),
        before.asks(first.0, first.1, Next::Parked, parked),
        parked.asks(second.0, second.1, answer, asked),
        asked.takes_in(frame, delivery, after),
    ensures
        answer is AlreadyAwaited,
        delivery == (StreamDelivery::HandOver { event_loop: first.0, fut: first.1, frame }),
        after.pending is None,
        after.queue@.len() == 0,
        after.dropped == before.dropped,
{
}

/// What happens to an awaitable stream.
pub enum StreamEvent {
    /// A frame comes in.
    Delivered { frame: Frame, to: StreamDelivery },
    /// A consumer asks with a future of an event loop.
    Asked { event_loop: u64, fut: u64, answer: Next },
}

/// Whether `ev` leads from `pre` to `post`.
pub open spec fn stream_step(pre: StreamState, ev: StreamEvent, post: StreamState) -> bool {
    match ev {
        StreamEvent::Delivered { frame, to } => pre.takes_in(frame, to, post),
        StreamEvent::Asked { event_loop, fut, answer } => pre.asks(
            event_loop,
            fut,
            answer,
            post,
        ),
    }
}

/// Whether `states` and `events` are a run of a stream from its start.
pub open spec fn is_stream_run(states: Seq<StreamState>, events: Seq<StreamEvent>) -> bool {
    &&& states.len() == events.len() + 1
    &&& states[0].wf()
    &&& states[0].queue@.len() == 0
    &&& states[0].pending is None
    &&& states[0].dropped == 0
    &&& forall|k: int|
        0 <= k < events.len() ==> stream_step(states[k], #[trigger] events[k], states[k + 1])
}

/// The frames that came in with the first `n` events, in order.
pub open spec fn came_in(events: Seq<StreamEvent>, n: nat) -> Seq<Frame>
    decreases n,
{
    if n == 0 {
        Seq::empty()
    } else {
        let before = came_in(events, (n - 1) as nat);
        match events[n - 1] {
            StreamEvent::Delivered { frame, .. } => before.push(frame),
            _ => before,
        }
    }
}

/// The frame that `ev` gives to a consumer.
pub open spec fn handed_over(ev: StreamEvent) -> Option<Frame> {
    match ev {
        StreamEvent::Delivered { to, .. } => match to {
            StreamDelivery::HandOver { frame, .. } => Some(frame),
            StreamDelivery::Queued => None,
        },
        StreamEvent::Asked { answer, .. } => match answer {
            Next::Ready(frame) => Some(frame),
            _ => None,
        },
    }
}

/// The frames that consumers got with the first `n` events, in order.
pub open spec fn went_out(events: Seq<StreamEvent>, n: nat) -> Seq<Frame>
    decreases n,
{
    if n == 0 {
        Seq::empty()
    } else {
        let before = went_out(events, (n - 1) as nat);
        match handed_over(events[n - 1]) {
            Some(frame) => before.push(frame),
            None => before,
        }
    }
}

/// Which of the frames that came in the consumers got, in order: one that is
/// handed over on arrival is the newest, one from the queue is the oldest
/// that waits.
pub open spec fn went_out_at(
    states: Seq<StreamState>,
    events: Seq<StreamEvent>,
    n: nat,
) -> Seq<int>
    decreases n,
{
    if n == 0 {
        Seq::empty()
    } else {
        let before = went_out_at(states, events, (n - 1) as nat);
        let so_far = came_in(events, (n - 1) as nat).len();
        if handed_over(events[n - 1]) is None {
            before
        } else {
            before.push(so_far - states[n - 1].queue@.len())
        }
    }
}

/// Over the first `n` events, a stream accounts for every frame.
proof fn lemma_stream_run(states: Seq<StreamState>, events: Seq<StreamEvent>, n: nat)
    requires
        is_stream_run(states, events),
        n <= events.len(),
    ensures
        ({
            let s = states[n as int];
            let all = came_in(events, n);
            let out = went_out(events, n);
            let at = went_out_at(states, events, n);
            let waiting = s.queue@.len();
            &&& s.wf()
            &&& s.capacity == states[0].capacity
            &&& all.len() == out.len() + s.dropped + waiting
            &&& s.queue@ == all.skip(all.len() - waiting)
            &&& at.len() == out.len()
            &&& forall|i: int|
                0 <= i < at.len() ==> 0 <= #[trigger] at[i] < all.len() - waiting && out[i]
                    == all[at[i]]
            &&& forall|i: int, j: int| 0 <= i < j < at.len() ==> at[i] < at[j]
        }),
    decreases n,
{
    if n > 0 {
        let m = (n - 1) as nat;
        lemma_stream_run(states, events, m);
        let (pre, post) = (states[m as int], states[n as int]);
        assert(stream_step(pre, events[m as int], states[m as int + 1]));
        let all = came_in(events, n);
        assert(post.queue@ =~= all.skip(all.len() - post.queue@.len()));
        let at = went_out_at(states, events, n);
        let out = went_out(events, n);
        assert forall|i: int| 0 <= i < at.len() implies 0 <= #[trigger] at[i] < all.len()
            - post.queue@.len() && out[i] == all[at[i]] by {
            let at0 = went_out_at(states, events, m);
            if i < at0.len() {
                assert(at[i] == at0[i]);
            }
        }
    } else {
        assert(states[0].queue@ =~= came_in(events, 0).skip(0));
    }
}

/// Whatever comes in and whoever asks, an awaitable stream accounts for every
/// frame: each was handed to a consumer, or waits in the queue, or was counted
/// as dropped. The queue is bounded and holds the newest frames in the order
/// in which they came. Consumers get frames in the order in which they came,
/// none twice, and nobody waits while a frame does.
pub proof fn law_stream_accounts_for_every_frame(
    states: Seq<StreamState>,
    events: Seq<StreamEvent>,
)
    requires
        is_stream_run(states, events),
    ensures
        ({
            let s = states.last();
            let all = came_in(events, events.len());
            let out = went_out(events, events.len());
            let at = went_out_at(states, events, events.len());
            let waiting = s.queue@.len();
            &&& all.len() == out.len() + s.dropped + waiting
            &&& waiting <= states[0].capacity
            &&& s.queue@ == all.skip(all.len() - waiting)
            &&& at.len() == out.len()
            &&& forall|i: int|
                0 <= i < at.len() ==> 0 <= #[trigger] at[i] < all.len() - waiting && out[i]
                    == all[at[i]]
            &&& forall|i: int, j: int| 0 <= i < j < at.len() ==> at[i] < at[j]
            &&& s.pending is Some ==> waiting == 0
        }),
{
    lemma_stream_run(states, events, events.len());
}

/// A frame goes straight to a consumer that waits, and otherwise to the end of
/// the queue, from which the oldest goes, and is counted, exactly where it is
/// full. A consumer gets the oldest frame that waits; where none does it is
/// parked, unless another is, which stays.
pub proof fn law_awaitable_stream_step(
    before: StreamState,
    after: StreamState,
    frame: Frame,
    delivery: StreamDelivery,
    event_loop: u64,
    fut: u64,
    answer: Next,
)
    requires
        before.wf(),
    ensures
        before.takes_in(frame, delivery, after) ==> {
            &&& after.wf()
            &&& after.capacity == before.capacity
            &&& after.pending is None
            &&& before.pending matches Some((l, f)) ==> delivery == (StreamDelivery::HandOver {
                event_loop: l,
                fut: f,
                frame,
            }) && after.queue@ == before.queue@ && after.dropped == before.dropped
            &&& before.pending is None ==> delivery is Queued && after.queue@.len() > 0
                && after.queue@.last() == frame
            &&& before.pending is None && before.queue@.len() < before.capacity
                ==> after.queue@.drop_last() == before.queue@ && after.dropped == before.dropped
            &&& before.pending is None && before.queue@.len() == before.capacity
                ==> after.queue@.drop_last() == before.queue@.skip(1) && after.dropped
                == before.dropped + 1
        },
        before.asks(event_loop, fut, answer, after) ==> {
            &&& after.wf()
            &&& after.capacity == before.capacity
            &&& after.dropped == before.dropped
            &&& answer is Ready <==> before.queue@.len() > 0
            &&& answer matches Next::Ready(f) ==> before.queue@ == seq![f] + after.queue@
                && after.pending is None
            &&& answer is Parked <==> before.queue@.len() == 0 && before.pending is None
            &&& answer is Parked ==> after.pending == Some((event_loop, fut))
            &&& answer is AlreadyAwaited ==> before.pending is Some && after.pending
                == before.pending
            &&& answer !is Ready ==> after.queue@.len() == 0
        },
{
    if before.takes_in(frame, delivery, after) && before.pending is None {
        if before.queue@.len() < before.capacity {
            assert(after.queue@.drop_last() =~= before.queue@);
        } else {
            assert(after.queue@.drop_last() =~= before.queue@.skip(1));
        }
    }
    if before.asks(event_loop, fut, answer, after) && before.queue@.len() > 0 {
        assert(before.queue@ =~= seq![before.queue@[0]] + after.queue@);
    }
}

/// The producer object: the producer, and the callables that its
/// subscriptions keep alive.
pub struct PyA {
    pub inner: A,
    pub subs: Callbacks,
}

impl PyA {
    /// A new producer without callables.
    pub fn new(heap: &mut Heap, id: u64) -> (r: PyA)
        requires
            old(heap).wf(),
        ensures
            new_window(r.inner@.shared, id),
            r.inner@ == new_state(r.inner@.shared, r.inner@.payload),
            r.inner@.valid(*final(heap)),
            r.subs.slots@ == Seq::<CallbackSlot>::empty(),
            fresh_payload(*old(heap), *final(heap), r.inner@.payload),
            transfer(*old(heap), *final(heap), nothing(), r.inner@.held()),
    {
        PyA { inner: A::new(heap, id), subs: Callbacks::new() }
    }

    /// Subscribes a callable; `f` is the closure that calls it.
    pub fn subscribe(&mut self, f: u64, callable: u64) -> (r: u64)
        requires
            old(self).inner@.wf(),
            old(self).inner@.next_sub < u64::MAX,
        ensures
            r == old(self).inner@.next_sub + 1,
            final(self).inner@ == old(self).inner@.subscribed(
                SubCb::Rust(f),
                A_DELIVERY_BLOCKING,
            ),
            final(self).subs.slots@ == old(self).subs.slots@.push(
                CallbackSlot { id: r, callable: Some(callable) },
            ),
            forall|h: Heap| old(self).inner@.valid(h) ==> #[trigger] final(self).inner@.valid(h),
    {
        let id = self.inner.subscribe(f);
        self.subs.subscribe(id, callable);
        id
    }

    /// Removes a subscription. Called again until it says `Done`; the
    /// callable goes only then, when nothing can be calling it.
    pub fn unsubscribe(&mut self, heap: &mut Heap, id: u64) -> (r: Teardown)
        requires
            old(self).inner@.valid(*old(heap)),
        ensures
            r == old(self).inner@.teardown(id),
            final(self).inner@ == old(self).inner@.unsubscribed(id),
            final(self).subs.slots@ == if r is Done {
                old(self).subs.slots@.filter(|c: CallbackSlot| c.id != id)
            } else {
                old(self).subs.slots@
            },
            final(self).inner@.valid(*final(heap)),
            effect(*old(heap), *final(heap), old(self).inner@.unsubscribe_calls(*old(heap), id)),
            transfer(*old(heap), *final(heap), old(self).inner@.held(), final(self).inner@.held()),
    {
        let t = self.inner.unsubscribe(heap, id);
        match t {
            Teardown::Done => self.subs.unsubscribe(id),
            _ => {},
        }
        t
    }

    /// Subscribes the closure `f`, which delivers into the returned stream.
    pub fn frames(&mut self, f: u64, capacity: usize) -> (r: (StreamState, u64))
        requires
            old(self).inner@.wf(),
            old(self).inner@.next_sub < u64::MAX,
        ensures
            r.0.wf(),
            r.0.queue@.len() == 0,
            r.0.pending is None,
            r.0.dropped == 0,
            r.0.capacity == (if capacity == 0 {
                1
            } else {
                capacity
            }),
            r.1 == old(self).inner@.next_sub + 1,
            final(self).inner@ == old(self).inner@.subscribed(
                SubCb::Rust(f),
                A_DELIVERY_BLOCKING,
            ),
            final(self).subs == old(self).subs,
            forall|h: Heap| old(self).inner@.valid(h) ==> #[trigger] final(self).inner@.valid(h),
    {
        let state = StreamState::new(capacity);
        let id = self.inner.subscribe(f);
        (state, id)
    }
}

/// Whether a future is given its result: not once it was cancelled.
pub fn resolve(cancelled: bool) -> (r: bool)
    ensures
        r == !cancelled,
{
    !cancelled
}

/// Whether a failed completion is reported. `failure` tells, if there is one,
/// whether it is a runtime error, which a closed event loop raises: then the
/// result is discarded silently.
pub fn reports(failure: Option<bool>) -> (r: bool)
    ensures
        r == (failure == Some(false)),
{
    match failure {
        Some(is_runtime_error) => !is_runtime_error,
        None => false,
    }
}

/// An object that another module passes in: whether it is a producer object,
/// which producer it has, and whether it is borrowed.
#[derive(Debug, Clone, Copy, PartialEq, Eq, Structural)]
pub struct PyObj {
    pub is_source: bool,
    pub handle: AHandle,
    pub borrowed: bool,
}

/// What a scoped borrow begins with.
#[derive(Debug, Clone, Copy, PartialEq, Eq, Structural)]
pub enum Scope {
    /// The borrow is held; the callback is to be called with this handle.
    Call(AHandle),
    /// There is no borrow; this is the wire code to answer.
    Refused(i32),
}

impl PyObj {
    /// The handle that an unscoped request gets.
    pub open spec fn lent(self) -> AHandle {
        if self.is_source && !self.borrowed {
            self.handle
        } else {
            AHandle { addr: 0 }
        }
    }

    /// What a scoped request gets.
    pub open spec fn scope(self) -> Scope {
        if !self.is_source {
            Scope::Refused(status_code(AStatus::InvalidArgument) as i32)
        } else if self.borrowed {
            Scope::Refused(status_code(AStatus::Busy) as i32)
        } else {
            Scope::Call(self.handle)
        }
    }

    /// The object after a scoped request.
    pub open spec fn entered(self) -> PyObj {
        PyObj { borrowed: self.borrowed || self.is_source, ..self }
    }

    /// The handle for a consumer that relies on the interpreter's lock, null
    /// where the object is of another type or borrowed. The borrow is over
    /// when this returns.
    pub fn unwrap_a(&self) -> (r: AHandle)
        ensures
            r == self.lent(),
    {
        if self.is_source && !self.borrowed {
            self.handle
        } else {
            AHandle { addr: 0 }
        }
    }

    /// Begins a scoped borrow.
    pub fn begin_with_a(&mut self) -> (r: Scope)
        ensures
            r == old(self).scope(),
            *final(self) == old(self).entered(),
    {
        if !self.is_source {
            return Scope::Refused(AStatus::InvalidArgument.code());
        }
        if self.borrowed {
            return Scope::Refused(AStatus::Busy.code());
        }
        self.borrowed = true;
        Scope::Call(self.handle)
    }

    /// Ends the scoped borrow and gives the wire code: that of the callback,
    /// or `Panic` where it has unwound.
    pub fn end_with_a(&mut self, returned: Option<i32>) -> (r: i32)
        requires
            old(self).borrowed,
        ensures
            r == (match returned {
                Some(code) => code as int,
                None => status_code(AStatus::Panic),
            }),
            *final(self) == (PyObj { borrowed: false, ..*old(self) }),
    {
        self.borrowed = false;
        match returned {
            Some(code) => code,
            None => AStatus::Panic.code(),
        }
    }
}

/// While a scoped borrow is held, nobody else gets at the producer: another
/// scoped borrow is refused as busy, and an unscoped handle is null. An
/// object of another type is refused as an invalid argument, held or not.
pub proof fn law_scoped_borrow_is_exclusive(o: PyObj)
    ensures
        o.scope() is Call ==> o.entered().scope() == Scope::Refused(
            status_code(AStatus::Busy) as i32,
        ) && o.entered().lent().addr == 0,
        !o.is_source ==> o.scope() == Scope::Refused(
            status_code(AStatus::InvalidArgument) as i32,
        ) && o.lent().addr == 0 && o.entered() == o,
{
}

/// The name of the module's capsule.
pub open spec fn capsule_name() -> Seq<char> {
    "a."@ + A_PY_CAPI_ATTR@
}

/// Writes the name of the module's capsule.
pub fn make_capsule_name() -> (r: String)
    ensures
        r@ == capsule_name(),
        r@ == "a._C_API"@,
{
    proof {
        reveal_strlit("a.");
        reveal_strlit("_C_API");
        reveal_strlit("a._C_API");
        assert("a."@ + "_C_API"@ =~= "a._C_API"@);
    }
    let mut s = "a.".to_owned();
    s.append(A_PY_CAPI_ATTR);
    s
}

/// The record that the module publishes.
pub fn make_capi(vtable: AVtableV1) -> (r: APyCapiV1)
    ensures
        r == (APyCapiV1 { abi_version: A_PY_CAPI_VERSION, vtable }),
{
    APyCapiV1 { abi_version: A_PY_CAPI_VERSION, vtable }
}

/// A request is granted exactly where there is a record to fill, no writable
/// bytes are asked for, strides are understood, and no contiguity is asked
/// for; what is granted is the frame's rows of pixels, read-only, from its
/// first byte, with the format named exactly where that is asked for.
pub proof fn law_buffer_requests(view: bool, flags: i32, buf: u64)
    ensures
        buffer_answer(view, flags, buf) is Ok <==> {
            &&& view
            &&& flags & 0x1 != 0x1
            &&& flags & 0x18 == 0x18
            &&& flags & 0x38 != 0x38
            &&& flags & 0x58 != 0x58
            &&& flags & 0x98 != 0x98
        },
        buffer_answer(view, flags, buf) matches Ok(v) ==> {
            &&& v.buf == buf
            &&& v.len == 3840
            &&& v.readonly == 1
            &&& v.itemsize == 1
            &&& v.ndim == 3
            &&& v.shape == (32isize, 30isize, 4isize)
            &&& v.strides == (128isize, 4isize, 1isize)
            &&& v.format <==> flags & 0x4 == 0x4
        },
        buffer_answer(view, flags, buf) matches Err(e) ==> match e {
            BufferError::NoView => !view,
            BufferError::ReadOnly => view && flags & 0x1 == 0x1,
            BufferError::NeedsStrides => view && flags & 0x1 != 0x1 && flags & 0x18 != 0x18,
            BufferError::NotContiguous => view && flags & 0x1 != 0x1 && flags & 0x18 == 0x18,
        },
{
    assert(32 * 30 * 4 == 3840) by (nonlinear_arith);
}

/// The message of every refusal; no two are the same.
pub proof fn law_refusals_are_told_apart(a: BufferError, b: BufferError)
    ensures
        buffer_error_text(a) == match a {
            BufferError::NoView => "Py_buffer is null"@,
            BufferError::ReadOnly => "frame buffers are read-only"@,
            BufferError::NeedsStrides =>
            "frame is not contiguous: a strided buffer request is required"@,
            BufferError::NotContiguous => "frame has padded rows and is not contiguous"@,
        },
        a != b ==> buffer_error_text(a) != buffer_error_text(b),
{
    reveal_strlit("Py_buffer is null");
    reveal_strlit("frame buffers are read-only");
    reveal_strlit("frame is not contiguous: a strided buffer request is required");
    reveal_strlit("frame has padded rows and is not contiguous");
    assert(buffer_error_text(BufferError::NoView)[0] == 'P');
    assert(buffer_error_text(BufferError::ReadOnly)[5] == ' ');
    assert(buffer_error_text(BufferError::ReadOnly)[6] == 'b');
    assert(buffer_error_text(BufferError::NeedsStrides)[6] == 'i');
    assert(buffer_error_text(BufferError::NotContiguous)[6] == 'h');
}

/// The callable of subscription `id`, as a delivery finds it.
pub open spec fn callable_of(s: Seq<CallbackSlot>, id: u64) -> Option<u64> {
    if slot_index(s, id) >= 0 {
        s[slot_index(s, id)].callable
    } else {
        None
    }
}

/// `slot_index` is -1 or points at a slot with that identifier.
proof fn lemma_slot_index(s: Seq<CallbackSlot>, id: u64)
    ensures
        -1 <= slot_index(s, id) < s.len(),
        slot_index(s, id) >= 0 ==> s[slot_index(s, id)].id == id,
        slot_index(s, id) < 0 ==> forall|i: int|
            0 <= i < s.len() ==> (#[trigger] s[i]).id != id,
    decreases s.len(),
{
    if s.len() > 0 && s.last().id != id {
        lemma_slot_index(s.drop_last(), id);
        if slot_index(s, id) < 0 {
            assert forall|i: int| 0 <= i < s.len() implies (#[trigger] s[i]).id != id by {
                if i < s.len() - 1 {
                    assert(s.drop_last()[i].id != id);
                }
            }
        }
    }
}

/// A delivery calls what was subscribed under its identifier, until that is
/// unsubscribed or cleared, whatever happens under other identifiers.
pub proof fn law_delivery_calls_what_was_subscribed(
    s: Seq<CallbackSlot>,
    id: u64,
    callable: u64,
    other: u64,
)
    ensures
        callable_of(s.push(CallbackSlot { id, callable: Some(callable) }), id) == Some(callable),
        other != id ==> callable_of(s.push(CallbackSlot { id, callable: Some(callable) }), other)
            == callable_of(s, other),
        callable_of(s.filter(|c: CallbackSlot| c.id != id), id) is None,
        other != id ==> callable_of(s.filter(|c: CallbackSlot| c.id != id), other) == callable_of(
            s,
            other,
        ),
        callable_of(cleared(s), id) is None,
        callable_of(Seq::empty(), id) is None,
        (forall|i: int| 0 <= i < s.len() ==> (#[trigger] s[i]).id != id) ==> callable_of(s, id)
            is None,
    decreases s.len(),
{
    let keep = |c: CallbackSlot| c.id != id;
    let t = s.push(CallbackSlot { id, callable: Some(callable) });
    assert(t.drop_last() =~= s);
    lemma_slot_index(s, other);
    lemma_slot_index(s, id);
    law_cleared_object_reaches_nothing(s);
    lemma_slot_index(cleared(s), id);
    reveal(Seq::filter);
    if s.len() > 0 {
        let u = s.drop_last();
        law_delivery_calls_what_was_subscribed(u, id, callable, other);
        lemma_slot_index(u, other);
        lemma_slot_index(u.filter(keep), other);
        lemma_slot_index(u.filter(keep), id);
        if keep(s.last()) {
            assert(s.filter(keep) == u.filter(keep).push(s.last()));
            assert(s.filter(keep).drop_last() =~= u.filter(keep));
        } else {
            assert(s.filter(keep) == u.filter(keep));
        }
    }
}

/// The collector is told of every callable that is held, in order.
pub proof fn law_reachable_adds_up(a: Seq<CallbackSlot>, b: Seq<CallbackSlot>, c: CallbackSlot)
    ensures
        reachable(a + b) == reachable(a) + reachable(b),
        reachable(seq![c]) == match c.callable {
            Some(f) => seq![f],
            None => Seq::<u64>::empty(),
        },
    decreases b.len(),
{
    reveal_with_fuel(reachable, 2);
    assert(seq![c].drop_last() =~= Seq::<CallbackSlot>::empty());
    if c.callable is Some {
        assert(reachable(seq![c]) =~= seq![c.callable->Some_0]);
    }
    if b.len() > 0 {
        law_reachable_adds_up(a, b.drop_last(), c);
        assert((a + b).drop_last() =~= a + b.drop_last());
        assert((a + b).last() == b.last());
    } else {
        assert(a + b =~= a);
    }
    assert(reachable(a + b) =~= reachable(a) + reachable(b));
}

/// A producer object that nobody borrows gives out its own handle, to an
/// unscoped request and to a scoped one, which then holds the borrow.
pub proof fn law_free_object_gives_its_handle(o: PyObj)
    ensures
        o.is_source && !o.borrowed ==> {
            &&& o.lent() == o.handle
            &&& o.scope() == Scope::Call(o.handle)
            &&& o.entered().borrowed
        },
        o.is_source && o.borrowed ==> {
            &&& o.lent().addr == 0
            &&& o.scope() matches Scope::Refused(code) && code == -3
            &&& o.entered() == o
        },
        !o.is_source ==> {
            &&& o.lent().addr == 0
            &&& o.scope() matches Scope::Refused(code) && code == -2
            &&& o.entered() == o
        },
        o.entered().handle == o.handle,
        o.entered().is_source == o.is_source,
{
}

} // verus!
