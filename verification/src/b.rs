//! A consumer library, written against the producer's public operations.

use vstd::prelude::*;
use crate::abi::{ASharedV1, A_ABI_VERSION};
use crate::capture::{CaptureJob, CaptureStep, CAPTURE_SEED};
use crate::frame::Frame;
use crate::heap::{
    alloc_effect, effect, law_checksum_ignores_seed, lemma_transfer_trans, made_storage,
    making_calls, nothing, one, pattern, sum, sum_bytes, transfer, Heap,
};
use crate::oneshot::OneShot;
use crate::source::{State, A};
use crate::storage::free_calls;

verus! {

/// Increments twice and adds the counter to the identity.
pub fn process(x: &mut A) -> (r: u64)
    requires
        old(x)@.shared.counter + 2 <= u64::MAX,
        old(x)@.shared.id + old(x)@.shared.counter + 2 <= u64::MAX,
    ensures
        r == old(x)@.shared.id + old(x)@.shared.counter + 2,
        final(x)@ == (State {
            shared: ASharedV1 {
                counter: (old(x)@.shared.counter + 2) as u64,
                ..old(x)@.shared
            },
            ..old(x)@
        }),
        fast_factors(final(x)@.shared) matches Some((scale, sum)) ==> sum == r && scale == old(
            x,
        )@.shared.scale_bits,
{
    x.increment();
    x.increment();
    x.id() + x.counter()
}

/// The factors of the fast path: the scale, in its IEEE 754 encoding, and
/// what it scales. None where the window is older than this reader.
pub open spec fn fast_factors(w: ASharedV1) -> Option<(u64, u64)> {
    if w.abi_version < A_ABI_VERSION {
        None
    } else {
        Some((w.scale_bits, (w.id + w.counter) as u64))
    }
}

/// A reader is not affected by what a later version puts behind the fields
/// that it knows: a newer version number, a larger window, and whatever
/// stands in the reserved bytes.
pub proof fn law_newer_window_reads_the_same(w: ASharedV1, newer: ASharedV1)
    requires
        w.abi_version >= A_ABI_VERSION,
        newer.abi_version >= w.abi_version,
        newer.id == w.id,
        newer.counter == w.counter,
        newer.scale_bits == w.scale_bits,
    ensures
        fast_factors(newer) == fast_factors(w),
        fast_factors(w) is Some,
{
}

/// Reads the window once. A newer window is fine: fields are only ever
/// appended. The caller multiplies the two factors, or answers not-a-number
/// where there are none.
pub fn process_fast(x: &A) -> (r: Option<(u64, u64)>)
    requires
        x@.shared.abi_version >= A_ABI_VERSION ==> x@.shared.id + x@.shared.counter <= u64::MAX,
    ensures
        r == fast_factors(x@.shared),
        r is Some <==> x@.shared.abi_version >= A_ABI_VERSION,
        r matches Some((scale, sum)) ==> scale == x@.shared.scale_bits && sum == x@.shared.id
            + x@.shared.counter,
{
    let s = x.shared();
    if s.abi_version < A_ABI_VERSION {
        return None;
    }
    Some((s.scale_bits, s.id + s.counter))
}

/// The implementation size that this library sees.
pub fn observed_impl_size() -> (r: usize)
    ensures
        r == vstd::layout::size_of::<A>(),
{
    A::impl_size()
}

/// The sum of the payload's bytes, read in place.
pub fn checksum(x: &A, heap: &Heap) -> (r: u64)
    requires
        x@.valid(*heap),
    ensures
        r == sum_bytes(heap.bytes_at(x@.payload)),
{
    sum(x.data(heap))
}

/// Where this library sees the payload.
pub fn data_ptr(x: &A) -> (r: u64)
    ensures
        r == x@.payload,
{
    x.payload
}

/// A snapshot that stays as it is whatever happens to the producer.
pub fn grab_frame(x: &A, heap: &mut Heap) -> (r: Frame)
    requires
        x@.valid(*old(heap)),
        old(heap).room(x@.payload),
    ensures
        r.buf == x@.payload,
        x@.valid(*final(heap)),
        final(heap).count(r.buf) == old(heap).count(r.buf) + 1,
        effect(*old(heap), *final(heap), Seq::empty()),
        transfer(*old(heap), *final(heap), nothing(), one(r.buf)),
{
    x.frame(heap)
}

/// The sum of a frame's bytes.
pub fn frame_checksum(f: &Frame, heap: &Heap) -> (r: u64)
    requires
        heap.wf(),
        f.valid(*heap),
    ensures
        r == sum_bytes(heap.bytes_at(f.buf)),
{
    sum(f.data(heap))
}

/// Starts a capture whose callback `f` gets the frame's checksum, when
/// `complete_checksum` says so.
pub fn capture_checksum_cb(x: &mut A, f: u64) -> (r: CaptureJob)
    requires
        old(x)@.wf(),
        old(x)@.next_job < u64::MAX,
    ensures
        r == old(x)@.new_job(f),
        final(x)@ == old(x)@.job_started(f),
        final(x)@.wf(),
        forall|h: Heap| old(x)@.valid(h) ==> #[trigger] final(x)@.valid(h),
{
    x.capture_cb(f)
}

/// What making a captured frame of `kind`, summing it and letting go of it
/// does to the heap.
pub open spec fn summed(pre: Heap, post: Heap, kind: u32) -> bool {
    alloc_effect(
        pre,
        post,
        kind,
        making_calls(pre.supply, CAPTURE_SEED, kind) + free_calls(
            made_storage(pre.supply, CAPTURE_SEED, kind),
        ),
    )
}

/// The moment of such a capture: the callback and what it is called with, or
/// nothing where it was called before. The frame is gone afterwards, and the
/// heap holds what it held before.
pub fn complete_checksum(x: &mut A, heap: &mut Heap, id: u64) -> (r: Option<(u64, u64)>)
    requires
        old(x)@.valid(*old(heap)),
    ensures
        final(x)@.valid(*final(heap)),
        match r {
            None => {
                &&& !old(x)@.job_waiting(id)
                &&& final(x)@ == old(x)@
                &&& *final(heap) == *old(heap)
            },
            Some((cb, value)) => {
                let job = old(x)@.job(id);
                &&& old(x)@.job_waiting(id)
                &&& cb == job.cb
                &&& value == sum_bytes(pattern(CAPTURE_SEED))
                &&& value == 522240
                &&& final(x)@ == old(x)@.job_fired(id)
                &&& summed(*old(heap), *final(heap), job.kind)
            },
        },
        transfer(*old(heap), *final(heap), nothing(), nothing()),
{
    let ghost h0 = *heap;
    let ghost job = x@.job(id);
    match x.fire_job(heap, id) {
        CaptureStep::Nothing => None,
        CaptureStep::Complete { cb, frame } => {
            let ghost h1 = *heap;
            let ghost buf = frame->Some_0.buf;
            let frame = frame.unwrap();
            assert(h1.count(buf) + nothing()(buf) == h0.count(buf) + one(buf)(buf));
            let sum = frame_checksum(&frame, heap);
            frame.release(heap);
            proof {
                law_checksum_ignores_seed(CAPTURE_SEED);
                lemma_transfer_trans(h0, h1, *heap, nothing(), one(buf), nothing());
                assert(heap.calls@ =~= h0.calls@ + (making_calls(
                    h0.supply,
                    CAPTURE_SEED,
                    job.kind,
                ) + free_calls(made_storage(h0.supply, CAPTURE_SEED, job.kind))));
                assert forall|q: u64| #[trigger] x@.held()(q) <= heap.count(q) by {
                    assert(heap.count(q) + nothing()(q) == h0.count(q) + nothing()(q));
                    assert(old(x)@.held()(q) <= h0.count(q));
                }
            }
            Some((cb, sum))
        },
    }
}

/// The same as a value that arrives once.
pub fn capture_checksum(x: &mut A, f: u64) -> (r: (CaptureJob, OneShot<u64>))
    requires
        old(x)@.wf(),
        old(x)@.next_job < u64::MAX,
    ensures
        r.0 == old(x)@.new_job(f),
        r.1 == (OneShot::<u64> { value: None, waker: None }),
        final(x)@ == old(x)@.job_started(f),
        final(x)@.wf(),
        forall|h: Heap| old(x)@.valid(h) ==> #[trigger] final(x)@.valid(h),
{
    (capture_checksum_cb(x, f), OneShot::new())
}

} // verus!
