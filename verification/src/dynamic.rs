//! The producer as seen from another library: a handle, and the same
//! operations through the C entry points.
//!
//! Status codes are read back into results, so that a caller cannot tell
//! whether it works on the producer itself or through its handle.

use vstd::prelude::*;
use crate::abi::{
    law_status_round_trip, ABuf, AFrameDescV1, AFrameDescV2, AFrameInfoV1, AHandle, ASharedV1,
    AStatus, A_DELIVERY_BLOCKING,
};
use crate::capi::{result_detail, Liba};
use crate::capture::CaptureJob;
use crate::capturing::cancelled;
use crate::frame::exported2;
use crate::heap::{
    effect, frame_geometry, freed, freed_all, nothing, one, transfer, Heap, FRAME_LEN,
};
use crate::laws::Event;
use crate::oneshot::OneShot;
use crate::registry::{closures_of, first_entry, others, Registry, SubPtr};
use crate::rt::LastError;
use crate::source::{
    capture_index, filled, frame_stored, fresh_payload, new_state, new_window, storage_answer,
    stored, Producer, State,
};
use crate::storage::{bracket, exported, Access, StorageView};
use crate::stream::FrameStream;
use crate::sub::{SubCb, Teardown};
use crate::teardown::closing_bufs;

verus! {

/// The function that every subscription through this module registers; its
/// context names the closure.
pub const STREAM_TRAMPOLINE: u64 = 1;

/// What the streaming trampoline hands to the closure: a reference of its
/// own, because the frame is only lent for the call.
pub fn stream_trampoline(heap: &mut Heap, user: u64, frame: ABuf) -> (r: (u64, Frame))
    requires
        old(heap).wf(),
        old(heap).live(frame.addr),
        old(heap).room(frame.addr),
    ensures
        final(heap).wf(),
        r.0 == user,
        r.1.buf == frame,
        final(heap).count(frame.addr) == old(heap).count(frame.addr) + 1,
        effect(*old(heap), *final(heap), Seq::empty()),
        transfer(*old(heap), *final(heap), nothing(), one(frame.addr)),
{
    heap.retain(frame.addr);
    (user, Frame { buf: frame })
}

/// What the completion trampoline hands to the closure: the frame itself,
/// whose ownership moves.
pub fn once_trampoline(user: u64, frame: ABuf) -> (r: (u64, Frame))
    ensures
        r.0 == user,
        r.1.buf == frame,
{
    (user, Frame { buf: frame })
}

/// The same for a capture that can be cancelled: null means that it was.
pub fn once_cancellable_trampoline(user: u64, frame: ABuf) -> (r: (u64, Option<Frame>))
    ensures
        r.0 == user,
        r.1 == (if frame.addr == 0 {
            None
        } else {
            Some(Frame { buf: frame })
        }),
{
    if frame.addr == 0 {
        (user, None)
    } else {
        (user, Some(Frame { buf: frame }))
    }
}

/// A producer behind a handle.
#[derive(Debug)]
pub struct A {
    pub handle: AHandle,
}

impl A {
    /// Whether the producer exists.
    pub open spec fn ok(self, lib: Liba) -> bool {
        lib.valid() && lib.live(self.handle)
    }

    /// A new producer.
    pub fn new(lib: &mut Liba, id: u64) -> (r: A)
        requires
            old(lib).valid(),
        ensures
            r.ok(*final(lib)),
            !old(lib).live(r.handle),
            new_window(final(lib).state(r.handle).shared, id),
            final(lib).state(r.handle) == new_state(
                final(lib).state(r.handle).shared,
                final(lib).state(r.handle).payload,
            ),
            fresh_payload(
                old(lib).heap,
                final(lib).heap,
                final(lib).state(r.handle).payload,
            ),
            forall|h: AHandle|
                h != r.handle ==> (#[trigger] final(lib).live(h) <==> old(lib).live(h)),
            forall|h: AHandle|
                old(lib).live(h) ==> #[trigger] final(lib).state(h) == old(lib).state(h),
            transfer(
                old(lib).heap,
                final(lib).heap,
                nothing(),
                final(lib).state(r.handle).held(),
            ),
            transfer(old(lib).heap, final(lib).heap, old(lib).held(), final(lib).held()),
    {
        A { handle: lib.a_create(id) }
    }

    /// The handle, lent.
    pub fn as_raw(&self) -> (r: AHandle)
        ensures
            r == self.handle,
    {
        self.handle
    }

    /// The handle, lent for operations that change the producer.
    pub fn as_raw_mut(&mut self) -> (r: AHandle)
        ensures
            r == old(self).handle,
            *final(self) == *old(self),
    {
        self.handle
    }

    /// Runs `f` on the producer behind a handle that is only lent: the
    /// producer is not destroyed afterwards.
    pub fn with_raw<R, F: FnOnce(A) -> R>(p: AHandle, f: F) -> (r: R)
        requires
            call_requires(f, (A { handle: p },)),
        ensures
            call_ensures(f, (A { handle: p },), r),
    {
        f(A { handle: p })
    }

    /// The identity.
    pub fn id(&self, lib: &Liba) -> (r: u64)
        requires
            self.ok(*lib),
        ensures
            r == lib.state(self.handle).shared.id,
    {
        lib.a_id(self.handle)
    }

    /// The counter.
    pub fn counter(&self, lib: &Liba) -> (r: u64)
        requires
            self.ok(*lib),
        ensures
            r == lib.state(self.handle).shared.counter,
    {
        lib.a_counter(self.handle)
    }

    /// Adds one to the counter.
    pub fn increment(&mut self, lib: &mut Liba)
        requires
            old(self).ok(*old(lib)),
            old(lib).state(old(self).handle).shared.counter < u64::MAX,
        ensures
            *final(self) == *old(self),
            final(lib).state(old(self).handle) == (State {
                shared: ASharedV1 {
                    counter: (old(lib).state(old(self).handle).shared.counter + 1) as u64,
                    ..old(lib).state(old(self).handle).shared
                },
                ..old(lib).state(old(self).handle)
            }),
            final(lib).heap == old(lib).heap,
            old(lib).does(*final(lib), old(self).handle, Event::Increment),
            old(lib).step(*final(lib), old(self).handle, nothing()),
    {
        lib.a_increment(self.handle)
    }

    /// The window with the public fields.
    pub fn shared<'a>(&self, lib: &'a Liba) -> (r: &'a ASharedV1)
        requires
            self.ok(*lib),
        ensures
            *r == lib.state(self.handle).shared,
    {
        lib.a_shared(self.handle)
    }

    /// The payload's bytes, in place.
    pub fn data<'a>(&self, lib: &'a Liba) -> (r: &'a [u8])
        requires
            self.ok(*lib),
        ensures
            r@ == lib.heap.bytes_at(lib.state(self.handle).payload),
            r@.len() == FRAME_LEN,
    {
        let view = lib.a_data(self.handle);
        proof {
            crate::capi::lemma_obj_valid(*lib, self.handle);
            let s = lib.state(self.handle);
            assert(s.held()(s.payload) <= lib.heap.count(s.payload));
        }
        lib.heap.bytes(view.ptr)
    }

    /// Refills the payload.
    pub fn fill(&mut self, lib: &mut Liba, seed: u8)
        requires
            old(self).ok(*old(lib)),
        ensures
            *final(self) == *old(self),
            final(lib).state(old(self).handle) == (State {
                payload: final(lib).state(old(self).handle).payload,
                ..old(lib).state(old(self).handle)
            }),
            filled(
                old(lib).heap,
                final(lib).heap,
                old(lib).state(old(self).handle).payload,
                final(lib).state(old(self).handle).payload,
                seed,
            ),
            old(lib).does(*final(lib), old(self).handle, Event::Fill { seed }),
            old(lib).step(*final(lib), old(self).handle, nothing()),
    {
        lib.a_fill(self.handle, seed)
    }

    /// Refills the payload; seed zero is reserved.
    pub fn try_fill(&mut self, lib: &mut Liba, err: &mut LastError, seed: u8) -> (r: Result<
        (),
        AStatus,
    >)
        requires
            old(self).ok(*old(lib)),
        ensures
            *final(self) == *old(self),
            r == (if seed == 0 {
                Err(AStatus::InvalidArgument)
            } else {
                Ok(())
            }),
            final(err)@ == result_detail(old(err)@, r),
            seed == 0 ==> final(lib).heap == old(lib).heap && final(lib).state(old(self).handle)
                == old(lib).state(old(self).handle),
            seed != 0 ==> final(lib).state(old(self).handle) == (State {
                payload: final(lib).state(old(self).handle).payload,
                ..old(lib).state(old(self).handle)
            }),
            seed != 0 ==> filled(
                old(lib).heap,
                final(lib).heap,
                old(lib).state(old(self).handle).payload,
                final(lib).state(old(self).handle).payload,
                seed,
            ),
            r is Ok ==> old(lib).does(*final(lib), old(self).handle, Event::Fill { seed }),
            old(lib).step(*final(lib), old(self).handle, nothing()),
    {
        let code = lib.a_try_fill(err, self.handle, seed);
        AStatus::from_code(code).into_result()
    }

    /// Selects the storage kind of emitted frames.
    pub fn set_frame_storage(&mut self, lib: &mut Liba, err: &mut LastError, kind: u32) -> (r:
        Result<(), AStatus>)
        requires
            old(self).ok(*old(lib)),
        ensures
            *final(self) == *old(self),
            r == storage_answer(old(lib).heap.supply, kind, 1),
            final(err)@ == result_detail(old(err)@, r),
            frame_stored(
                old(lib).heap,
                final(lib).heap,
                old(lib).state(old(self).handle),
                final(lib).state(old(self).handle),
                kind,
            ),
            old(lib).does(*final(lib), old(self).handle, Event::FrameStore { kind }),
            old(lib).step(*final(lib), old(self).handle, nothing()),
    {
        let ghost outcome = storage_answer(lib.heap.supply, kind, 1);
        let code = lib.a_set_frame_storage(err, self.handle, kind);
        proof {
            if let Err(e) = outcome {
                law_status_round_trip(e);
            }
        }
        AStatus::from_code(code).into_result()
    }

    /// The scale, in its IEEE 754 encoding.
    pub fn scale(&self, lib: &Liba) -> (r: u64)
        requires
            self.ok(*lib),
        ensures
            r == lib.state(self.handle).shared.scale_bits,
    {
        lib.a_scale(self.handle)
    }

    /// The library's report of a producer's size.
    pub fn impl_size() -> (r: usize)
        ensures
            r == vstd::layout::size_of::<crate::source::A>(),
    {
        Liba::a_impl_size()
    }

    /// Copies the payload's first bytes into `out`, as many as fit.
    pub fn copy_data(&self, lib: &mut Liba, out: &mut [u8]) -> (n: usize)
        requires
            self.ok(*old(lib)),
        ensures
            n == (if old(out)@.len() < FRAME_LEN {
                old(out)@.len()
            } else {
                FRAME_LEN as nat
            }),
            final(out)@ == old(lib).heap.bytes_at(old(lib).state(self.handle).payload).take(
                n as int,
            ) + old(out)@.skip(n as int),
            final(lib).state(self.handle) == old(lib).state(self.handle),
            final(lib).heap.slots == old(lib).heap.slots,
            final(lib).heap.supply == old(lib).heap.supply,
            final(lib).heap.calls@ == old(lib).heap.calls@ + if old(out)@.len() == 0 {
                Seq::empty()
            } else {
                bracket(
                    old(lib).heap.storage(old(lib).state(self.handle).payload),
                    Access::Read,
                    Seq::empty(),
                )
            },
            old(lib).step(*final(lib), self.handle, nothing()),
    {
        lib.a_copy_data(self.handle, Some(out))
    }

    /// Starts a stream; says no while an earlier one has frames to send.
    pub fn stream(&mut self, lib: &mut Liba, count: u32, period_ms: u32) -> (r: bool)
        requires
            old(self).ok(*old(lib)),
        ensures
            *final(self) == *old(self),
            r == (old(lib).state(old(self).handle).stream matches Some(s) ==> s.finished()),
            r ==> final(lib).state(old(self).handle) == (State {
                stream: Some(
                    Producer {
                        count,
                        period_ms,
                        kind: old(lib).state(old(self).handle).frame_kind,
                        next: 0,
                        frame: None,
                        calling: None,
                        sleeping: false,
                    },
                ),
                ..old(lib).state(old(self).handle)
            }),
            !r ==> final(lib).state(old(self).handle) == old(lib).state(old(self).handle),
            final(lib).heap == old(lib).heap,
            r ==> old(lib).does(*final(lib), old(self).handle, Event::Stream { count, period_ms }),
            old(lib).step(*final(lib), old(self).handle, nothing()),
    {
        lib.a_stream(self.handle, count, period_ms)
    }

    /// Ends a stream that has sent all its frames; says no while it has not.
    pub fn stream_join(&mut self, lib: &mut Liba) -> (r: bool)
        requires
            old(self).ok(*old(lib)),
        ensures
            *final(self) == *old(self),
            r == (old(lib).state(old(self).handle).stream matches Some(s) ==> s.finished()),
            r ==> final(lib).state(old(self).handle) == (State {
                stream: None,
                ..old(lib).state(old(self).handle)
            }),
            !r ==> final(lib).state(old(self).handle) == old(lib).state(old(self).handle),
            final(lib).heap == old(lib).heap,
            r ==> old(lib).does(*final(lib), old(self).handle, Event::Join),
            old(lib).step(*final(lib), old(self).handle, nothing()),
    {
        lib.a_stream_join(self.handle)
    }

    /// The storage kind of emitted frames.
    pub fn frame_storage(&self, lib: &Liba) -> (r: u32)
        requires
            self.ok(*lib),
        ensures
            r == lib.state(self.handle).frame_kind,
    {
        lib.a_frame_storage(self.handle)
    }

    /// Moves the payload into storage of another kind.
    pub fn set_storage(&mut self, lib: &mut Liba, err: &mut LastError, kind: u32) -> (r: Result<
        (),
        AStatus,
    >)
        requires
            old(self).ok(*old(lib)),
        ensures
            *final(self) == *old(self),
            r == storage_answer(old(lib).heap.supply, kind, FRAME_LEN as int),
            final(err)@ == result_detail(old(err)@, r),
            stored(
                old(lib).heap,
                final(lib).heap,
                old(lib).state(old(self).handle),
                final(lib).state(old(self).handle),
                kind,
            ),
            old(lib).does(*final(lib), old(self).handle, Event::Store { kind }),
            old(lib).step(*final(lib), old(self).handle, nothing()),
    {
        let ghost outcome = storage_answer(lib.heap.supply, kind, FRAME_LEN as int);
        let code = lib.a_set_storage(err, self.handle, kind);
        proof {
            if let Err(e) = outcome {
                law_status_round_trip(e);
            }
        }
        AStatus::from_code(code).into_result()
    }

    /// A snapshot of the payload.
    pub fn frame(&self, lib: &mut Liba) -> (r: Frame)
        requires
            self.ok(*old(lib)),
            old(lib).heap.room(old(lib).state(self.handle).payload),
        ensures
            r.buf.addr == old(lib).state(self.handle).payload,
            r.ok(*final(lib)),
            final(lib).state(self.handle) == old(lib).state(self.handle),
            effect(old(lib).heap, final(lib).heap, Seq::empty()),
            old(lib).step(*final(lib), self.handle, one(r.buf.addr)),
    {
        Frame { buf: lib.a_frame(self.handle) }
    }

    /// Subscribes a closure with blocking delivery.
    pub fn subscribe(&mut self, lib: &mut Liba, reg: &mut Registry, f: u64) -> (r: u64)
        requires
            old(self).ok(*old(lib)),
            old(lib).state(old(self).handle).next_sub < u64::MAX,
        ensures
            *final(self) == *old(self),
            r == old(lib).state(old(self).handle).next_sub + 1,
            final(lib).state(old(self).handle) == old(lib).state(old(self).handle).subscribed(
                SubCb::C { cb: STREAM_TRAMPOLINE, user: f },
                A_DELIVERY_BLOCKING,
            ),
            final(reg).subs@ == old(reg).subs@.push(
                SubPtr { handle: old(self).handle.addr, id: r, cb: f },
            ),
            final(lib).heap == old(lib).heap,
            old(lib).does(
                *final(lib),
                old(self).handle,
                Event::Subscribe {
                    cb: SubCb::C { cb: STREAM_TRAMPOLINE, user: f },
                    policy: A_DELIVERY_BLOCKING,
                },
            ),
            old(lib).step(*final(lib), old(self).handle, nothing()),
    {
        self.subscribe_with(lib, reg, f, A_DELIVERY_BLOCKING)
    }

    /// Subscribes a closure with a delivery policy, and keeps it alive.
    pub fn subscribe_with(&mut self, lib: &mut Liba, reg: &mut Registry, f: u64, policy: u32) -> (r:
        u64)
        requires
            old(self).ok(*old(lib)),
            old(lib).state(old(self).handle).next_sub < u64::MAX,
        ensures
            *final(self) == *old(self),
            r == old(lib).state(old(self).handle).next_sub + 1,
            final(lib).state(old(self).handle) == old(lib).state(old(self).handle).subscribed(
                SubCb::C { cb: STREAM_TRAMPOLINE, user: f },
                policy,
            ),
            final(reg).subs@ == old(reg).subs@.push(
                SubPtr { handle: old(self).handle.addr, id: r, cb: f },
            ),
            final(lib).heap == old(lib).heap,
            old(lib).does(
                *final(lib),
                old(self).handle,
                Event::Subscribe {
                    cb: SubCb::C { cb: STREAM_TRAMPOLINE, user: f },
                    policy,
                },
            ),
            old(lib).step(*final(lib), old(self).handle, nothing()),
    {
        let id = lib.a_subscribe_with(self.handle, STREAM_TRAMPOLINE, f, policy);
        reg.remember(self.handle.addr, id, f);
        id
    }

    /// Frames that subscription `id` missed.
    pub fn dropped(&self, lib: &Liba, id: u64) -> (r: u64)
        requires
            self.ok(*lib),
        ensures
            r == lib.state(self.handle).dropped(id),
    {
        lib.a_sub_dropped(self.handle, id)
    }

    /// Removes a subscription. Called again until it says `Done`; then its
    /// closure, which is returned beside, is to be freed.
    pub fn unsubscribe(&mut self, lib: &mut Liba, reg: &mut Registry, id: u64) -> (r: (
        Teardown,
        Option<u64>,
    ))
        requires
            old(self).ok(*old(lib)),
        ensures
            *final(self) == *old(self),
            r.0 == old(lib).state(old(self).handle).teardown(id),
            final(lib).state(old(self).handle) == old(lib).state(old(self).handle).unsubscribed(
                id,
            ),
            effect(
                old(lib).heap,
                final(lib).heap,
                old(lib).state(old(self).handle).unsubscribe_calls(old(lib).heap, id),
            ),
            ({
                let i = first_entry(old(reg).subs@, old(self).handle.addr, id);
                if r.0 is Done && i < old(reg).subs@.len() {
                    &&& r.1 == Some(old(reg).subs@[i].cb)
                    &&& final(reg).subs@ == old(reg).subs@.remove(i)
                } else {
                    &&& r.1 is None
                    &&& final(reg).subs@ == old(reg).subs@
                }
            }),
            old(lib).does(*final(lib), old(self).handle, Event::Unsubscribe { id }),
            old(lib).step(*final(lib), old(self).handle, nothing()),
    {
        let t = lib.a_unsubscribe(self.handle, id);
        match t {
            Teardown::Done => {
                let freed = reg.forget_registry_entry(self.handle.addr, id);
                (t, freed)
            },
            _ => (t, None),
        }
    }

    /// Starts a capture for the closure `f` that cannot be cancelled.
    pub fn capture_cb(&self, lib: &mut Liba, f: u64) -> (r: CaptureJob)
        requires
            self.ok(*old(lib)),
            old(lib).state(self.handle).next_job < u64::MAX,
        ensures
            r == old(lib).state(self.handle).new_job(f),
            final(lib).state(self.handle) == old(lib).state(self.handle).job_started(f),
            final(lib).heap == old(lib).heap,
            old(lib).does(*final(lib), self.handle, Event::StartJob { f }),
            old(lib).step(*final(lib), self.handle, nothing()),
    {
        lib.a_capture(self.handle, f)
    }

    /// A capture as a value that arrives once; `f` is the closure that
    /// completes it.
    pub fn capture(&self, lib: &mut Liba, f: u64) -> (r: (CaptureJob, OneShot<Frame>))
        requires
            self.ok(*old(lib)),
            old(lib).state(self.handle).next_job < u64::MAX,
        ensures
            r.0 == old(lib).state(self.handle).new_job(f),
            r.1 == (OneShot::<Frame> { value: None, waker: None }),
            final(lib).state(self.handle) == old(lib).state(self.handle).job_started(f),
            final(lib).heap == old(lib).heap,
            old(lib).does(*final(lib), self.handle, Event::StartJob { f }),
            old(lib).step(*final(lib), self.handle, nothing()),
    {
        (self.capture_cb(lib, f), OneShot::new())
    }

    /// Subscribes the closure `f`, which is to push every frame into the
    /// returned stream. Delivery is blocking, so that the bound lies in the
    /// stream's queue alone; a capacity of zero is taken as one.
    pub fn frames(&mut self, lib: &mut Liba, reg: &mut Registry, f: u64, capacity: usize) -> (r:
        FrameStream)
        requires
            old(self).ok(*old(lib)),
            old(lib).state(old(self).handle).next_sub < u64::MAX,
        ensures
            *final(self) == *old(self),
            r.is_new(capacity, (old(lib).state(old(self).handle).next_sub + 1) as u64),
            final(lib).state(old(self).handle) == old(lib).state(old(self).handle).subscribed(
                SubCb::C { cb: STREAM_TRAMPOLINE, user: f },
                A_DELIVERY_BLOCKING,
            ),
            final(reg).subs@ == old(reg).subs@.push(
                SubPtr { handle: old(self).handle.addr, id: r.id, cb: f },
            ),
            final(lib).heap == old(lib).heap,
            old(lib).does(
                *final(lib),
                old(self).handle,
                Event::Subscribe {
                    cb: SubCb::C { cb: STREAM_TRAMPOLINE, user: f },
                    policy: A_DELIVERY_BLOCKING,
                },
            ),
            old(lib).step(*final(lib), old(self).handle, nothing()),
    {
        let id = self.subscribe_with(lib, reg, f, A_DELIVERY_BLOCKING);
        FrameStream::new(id, capacity)
    }

    /// Starts a capture that can be cancelled.
    pub fn capture_cb_cancellable(&mut self, lib: &mut Liba, f: u64) -> (r: u64)
        requires
            old(self).ok(*old(lib)),
            old(lib).state(old(self).handle).next_sub < u64::MAX,
        ensures
            *final(self) == *old(self),
            r == old(lib).state(old(self).handle).next_sub + 1,
            final(lib).state(old(self).handle) == old(lib).state(old(self).handle).capturing(f),
            final(lib).heap == old(lib).heap,
            old(lib).does(*final(lib), old(self).handle, Event::Capture { f }),
            old(lib).step(*final(lib), old(self).handle, nothing()),
    {
        lib.a_capture2(self.handle, f)
    }

    /// Cancels a capture.
    pub fn cancel_capture(&mut self, lib: &mut Liba, err: &mut LastError, id: u64) -> (r: Result<
        (),
        AStatus,
    >)
        requires
            old(self).ok(*old(lib)),
        ensures
            *final(self) == *old(self),
            ({
                let s = old(lib).state(old(self).handle);
                let known = capture_index(s.captures, id) >= 0 && s.capture(id).listed;
                &&& r == if known {
                    Ok(())
                } else {
                    Err(AStatus::InvalidArgument)
                }
                &&& final(lib).state(old(self).handle) == if known {
                    s.with_capture(id, cancelled(s.capture(id)))
                } else {
                    s
                }
            }),
            final(lib).heap == old(lib).heap,
            final(err)@ == result_detail(old(err)@, r),
            r is Ok ==> old(lib).does(*final(lib), old(self).handle, Event::Cancel { id }),
            old(lib).step(*final(lib), old(self).handle, nothing()),
    {
        let code = lib.a_capture_cancel(err, self.handle, id);
        AStatus::from_code(code).into_result()
    }

    /// Destroys the producer. Called again until it says `Done`; then its
    /// closures, which are returned beside, are to be freed.
    pub fn destroy(&mut self, lib: &mut Liba, reg: &mut Registry) -> (r: (Teardown, Vec<u64>))
        requires
            old(self).ok(*old(lib)),
        ensures
            *final(self) == *old(self),
            r.0 == old(lib).state(old(self).handle).destroying(),
            final(lib).valid(),
            r.0 is Done ==> !final(lib).live(old(self).handle),
            r.0 !is Done ==> final(lib).live(old(self).handle),
            forall|h: AHandle|
                h != old(self).handle ==> (#[trigger] final(lib).live(h) <==> old(lib).live(h)),
            forall|h: AHandle|
                h != old(self).handle && old(lib).live(h) ==> #[trigger] final(lib).state(h)
                    == old(lib).state(h),
            r.0 is Done ==> r.1@ == closures_of(old(reg).subs@, old(self).handle.addr)
                && final(reg).subs@ == others(old(reg).subs@, old(self).handle.addr),
            r.0 !is Done ==> final(lib).state(old(self).handle) == old(lib).state(
                old(self).handle,
            ).destroyed() && r.1@.len() == 0 && final(reg).subs@ == old(reg).subs@,
            effect(
                old(lib).heap,
                final(lib).heap,
                if r.0 is Done {
                    freed_all(
                        old(lib).heap,
                        closing_bufs(old(lib).state(old(self).handle).subs).push(
                            old(lib).state(old(self).handle).payload,
                        ),
                    )
                } else {
                    old(lib).state(old(self).handle).destroy_calls(old(lib).heap)
                },
            ),
            transfer(
                old(lib).heap,
                final(lib).heap,
                old(lib).state(old(self).handle).held(),
                if r.0 is Done {
                    nothing()
                } else {
                    final(lib).state(old(self).handle).held()
                },
            ),
            transfer(old(lib).heap, final(lib).heap, old(lib).held(), final(lib).held()),
    {
        let t = lib.a_destroy(self.handle);
        match t {
            Teardown::Done => {
                let freed = reg.forget_handle(self.handle.addr);
                (t, freed)
            },
            _ => (t, Vec::new()),
        }
    }
}

/// One reference to a buffer of another library.
#[derive(Debug)]
pub struct Frame {
    pub buf: ABuf,
}

impl Frame {
    /// Whether the buffer is alive.
    pub open spec fn ok(self, lib: Liba) -> bool {
        lib.heap.wf() && lib.heap.live(self.buf.addr)
    }

    /// The bytes.
    pub fn data<'a>(&self, lib: &'a Liba) -> (r: &'a [u8])
        requires
            self.ok(*lib),
        ensures
            r@ == lib.heap.bytes_at(self.buf.addr),
            r@.len() == FRAME_LEN,
    {
        let view = lib.a_buf_map(self.buf);
        lib.heap.bytes(view.ptr)
    }

    /// The geometry.
    pub fn info(&self, lib: &Liba) -> (r: AFrameInfoV1)
        requires
            self.ok(*lib),
        ensures
            r == frame_geometry(),
    {
        lib.a_buf_info(self.buf)
    }

    /// The storage descriptor.
    pub fn export(&self, lib: &Liba, dup: i32) -> (r: AFrameDescV1)
        requires
            self.ok(*lib),
        ensures
            r == exported(lib.heap.storage(self.buf.addr), dup),
            r.offset == 0,
            r.offset + r.len == lib.heap.bytes_at(self.buf.addr).len(),
    {
        lib.a_buf_export(self.buf, dup)
    }

    /// The storage descriptor with the pixel format.
    pub fn export2(&self, lib: &Liba, dup: i32) -> (r: AFrameDescV2)
        requires
            self.ok(*lib),
        ensures
            r == exported2(lib.heap.storage(self.buf.addr), dup),
            r.offset == 0,
            r.offset + r.len == lib.heap.bytes_at(self.buf.addr).len(),
    {
        lib.a_buf_export2(self.buf, dup)
    }

    /// Exclusive write access, while this is the only reference.
    pub fn data_mut<'a>(&mut self, lib: &'a mut Liba) -> (r: Option<&'a mut [u8]>)
        requires
            old(self).ok(*old(lib)),
        ensures
            *final(self) == *old(self),
            r is Some <==> old(lib).heap.count(old(self).buf.addr) == 1,
            r matches Some(b) ==> {
                &&& b@ == old(lib).heap.bytes_at(old(self).buf.addr)
                &&& b@.len() == FRAME_LEN
                &&& final(lib).heap.storage(old(self).buf.addr) == (StorageView {
                    bytes: final(b)@,
                    ..old(lib).heap.storage(old(self).buf.addr)
                })
                &&& final(b)@.len() == FRAME_LEN ==> final(lib).heap.wf()
                &&& final(b)@.len() == FRAME_LEN && old(lib).valid() ==> final(lib).valid()
            },
            r is None ==> *final(lib) == *old(lib),
            final(lib).objs == old(lib).objs,
            old(lib).heap.same_platform(final(lib).heap),
            transfer(
                old(lib).heap,
                final(lib).heap,
                one(old(self).buf.addr),
                one(old(self).buf.addr),
            ),
    {
        let view = lib.a_buf_map_mut(self.buf);
        if view.ptr == 0 {
            None
        } else {
            lib.heap.bytes_mut(view.ptr)
        }
    }

    /// A second reference.
    pub fn retain(&self, lib: &mut Liba) -> (r: Frame)
        requires
            self.ok(*old(lib)),
            old(lib).valid(),
            old(lib).heap.room(self.buf.addr),
        ensures
            r == *self,
            final(lib).valid(),
            final(lib).objs == old(lib).objs,
            effect(old(lib).heap, final(lib).heap, Seq::empty()),
            transfer(old(lib).heap, final(lib).heap, nothing(), one(self.buf.addr)),
    {
        lib.a_buf_retain(self.buf);
        Frame { buf: self.buf }
    }

    /// Gives the reference up.
    pub fn release(self, lib: &mut Liba)
        requires
            old(lib).valid(),
            old(lib).lent(self.buf),
        ensures
            final(lib).valid(),
            final(lib).objs == old(lib).objs,
            effect(old(lib).heap, final(lib).heap, freed(old(lib).heap, self.buf.addr)),
            transfer(old(lib).heap, final(lib).heap, one(self.buf.addr), nothing()),
    {
        lib.a_buf_release(self.buf)
    }

    /// Turns the reference into a raw handle.
    pub fn into_raw(self) -> (r: ABuf)
        ensures
            r == self.buf,
    {
        self.buf
    }

    /// Takes over a reference that a raw handle carries.
    pub fn from_raw(p: ABuf) -> (r: Frame)
        ensures
            r.buf == p,
    {
        Frame { buf: p }
    }
}

} // verus!
