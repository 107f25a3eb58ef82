//! The consumer as a module for foreign languages. Producers and frames
//! arrive as plain numbers from the producer's module, and every operation
//! goes through the producer library that both share.

use vstd::prelude::*;
use crate::abi::{ABuf, AHandle, ASharedV1};
use crate::capi::Liba;
use crate::capture::CaptureJob;
use crate::dynamic::Frame;
use crate::heap::{effect, freed, nothing, one, sum_bytes, transfer};
use crate::oneshot::OneShot;
use crate::source::State;

verus! {

/// The producer that a number from another module stands for.
pub open spec fn source_at(handle: u64) -> AHandle {
    AHandle { addr: handle }
}

/// Increments twice and adds the counter to the identity.
pub fn process_source(lib: &mut Liba, source_handle: u64) -> (r: u64)
    requires
        old(lib).valid(),
        old(lib).live(source_at(source_handle)),
        old(lib).state(source_at(source_handle)).shared.counter + 2 <= u64::MAX,
        old(lib).state(source_at(source_handle)).shared.id + old(lib).state(
            source_at(source_handle),
        ).shared.counter + 2 <= u64::MAX,
    ensures
        ({
            let s = old(lib).state(source_at(source_handle));
            &&& r == s.shared.id + s.shared.counter + 2
            &&& final(lib).state(source_at(source_handle)) == (State {
                shared: ASharedV1 { counter: (s.shared.counter + 2) as u64, ..s.shared },
                ..s
            })
        }),
        final(lib).heap == old(lib).heap,
        old(lib).step(*final(lib), source_at(source_handle), nothing()),
{
    lib.b_process(AHandle { addr: source_handle })
}

/// The sum of a producer's payload.
pub fn checksum_source(lib: &Liba, source_handle: u64) -> (r: u64)
    requires
        lib.valid(),
        lib.live(source_at(source_handle)),
    ensures
        r == sum_bytes(lib.heap.bytes_at(lib.state(source_at(source_handle)).payload)),
{
    lib.b_checksum(AHandle { addr: source_handle })
}

/// The sum of a frame's bytes; the reference stays the caller's.
pub fn frame_checksum(lib: &Liba, frame_handle: u64) -> (r: u64)
    requires
        lib.heap.wf(),
        lib.heap.live(frame_handle),
    ensures
        r == sum_bytes(lib.heap.bytes_at(frame_handle)),
{
    lib.b_frame_checksum(ABuf { addr: frame_handle })
}

/// The sum of a frame's bytes; the reference is given up.
pub fn consume_frame_checksum(lib: &mut Liba, frame_handle: u64) -> (r: u64)
    requires
        old(lib).valid(),
        old(lib).lent(ABuf { addr: frame_handle }),
    ensures
        r == sum_bytes(old(lib).heap.bytes_at(frame_handle)),
        final(lib).valid(),
        final(lib).objs == old(lib).objs,
        effect(old(lib).heap, final(lib).heap, freed(old(lib).heap, frame_handle)),
        transfer(old(lib).heap, final(lib).heap, one(frame_handle), nothing()),
{
    let frame = Frame::from_raw(ABuf { addr: frame_handle });
    let sum = frame_checksum(lib, frame_handle);
    frame.release(lib);
    sum
}

/// Starts a capture whose frame's checksum arrives once, when
/// `Liba::b_complete_checksum` says so.
pub fn capture_checksum(lib: &mut Liba, source_handle: u64, f: u64) -> (r: (
    CaptureJob,
    OneShot<u64>,
))
    requires
        old(lib).valid(),
        old(lib).live(source_at(source_handle)),
        old(lib).state(source_at(source_handle)).next_job < u64::MAX,
    ensures
        r.0 == old(lib).state(source_at(source_handle)).new_job(f),
        r.1 == (OneShot::<u64> { value: None, waker: None }),
        final(lib).state(source_at(source_handle)) == old(lib).state(
            source_at(source_handle),
        ).job_started(f),
        final(lib).heap == old(lib).heap,
        old(lib).step(*final(lib), source_at(source_handle), nothing()),
{
    (lib.b_capture_checksum(AHandle { addr: source_handle }, f), OneShot::new())
}

/// A number from another module is the handle of that number, and no two
/// numbers are the same handle.
pub proof fn law_number_is_the_handle(a: u64, b: u64)
    ensures
        source_at(a).addr == a,
        source_at(a) == source_at(b) ==> a == b,
{
}

} // verus!
