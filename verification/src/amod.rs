//! The producer as a module for foreign languages: objects cross as plain
//! numbers, and every lifetime operation happens in the producer library.

use vstd::prelude::*;
use crate::abi::{ABuf, AHandle, AStatus};
use crate::capi::{result_detail, Liba};
use crate::capture::CaptureJob;
use crate::dynamic::{once_trampoline, Frame, A};
use crate::heap::{effect, nothing, one, transfer, FRAME_LEN};
use crate::laws::Event;
use crate::oneshot::OneShot;
use crate::rt::LastError;
use crate::source::{filled, fresh_payload, new_state, new_window, storage_answer, stored, State};
use crate::storage::{exported, StorageView};

verus! {

/// Errors as foreign callers see them.
#[derive(Debug, Clone, Copy, PartialEq, Eq, Structural)]
pub enum AmError {
    InvalidArgument,
    Panic,
    Internal,
}

/// The error that a status is shown as.
pub open spec fn shown_error(e: AStatus) -> AmError {
    match e {
        AStatus::InvalidArgument => AmError::InvalidArgument,
        AStatus::Panic => AmError::Panic,
        _ => AmError::Internal,
    }
}

/// Reduces a status to what foreign callers tell apart.
pub fn map_status(e: AStatus) -> (r: AmError)
    ensures
        r == shown_error(e),
{
    match e {
        AStatus::InvalidArgument => AmError::InvalidArgument,
        AStatus::Panic => AmError::Panic,
        _ => AmError::Internal,
    }
}

/// A storage descriptor in plain values; the receiver owns `fd`.
#[derive(Debug, Clone, Copy, PartialEq, Eq, Structural)]
pub struct AmFrameDesc {
    pub kind: u32,
    pub fd: i32,
    pub id: u32,
    pub len: u64,
}

/// The plain descriptor of a storage.
pub open spec fn plain_desc(s: StorageView, dup: i32) -> AmFrameDesc {
    let d = exported(s, dup);
    AmFrameDesc { kind: d.kind, fd: d.fd, id: d.id, len: d.len as u64 }
}

/// An immutable frame.
#[derive(Debug)]
pub struct AmFrame {
    pub inner: Frame,
}

impl AmFrame {
    /// Takes over the reference that `raw_retained` gave out.
    pub fn from_raw(handle: u64) -> (r: AmFrame)
        ensures
            r.inner.buf.addr == handle,
    {
        AmFrame { inner: Frame::from_raw(ABuf { addr: handle }) }
    }

    /// The first byte.
    pub fn first_byte(&self, lib: &Liba) -> (r: u8)
        requires
            self.inner.ok(*lib),
        ensures
            r == lib.heap.bytes_at(self.inner.buf.addr)[0],
    {
        self.inner.data(lib)[0]
    }

    /// How many bytes the frame has.
    pub fn len(&self, lib: &Liba) -> (r: u64)
        requires
            self.inner.ok(*lib),
        ensures
            r == FRAME_LEN,
    {
        self.inner.data(lib).len() as u64
    }

    /// The storage descriptor.
    pub fn export_desc(&self, lib: &Liba, dup: i32) -> (r: AmFrameDesc)
        requires
            self.inner.ok(*lib),
        ensures
            r == plain_desc(lib.heap.storage(self.inner.buf.addr), dup),
    {
        let d = self.inner.export(lib, dup);
        AmFrameDesc { kind: d.kind, fd: d.fd, id: d.id, len: d.len as u64 }
    }

    /// A handle with a reference of its own, for another module.
    pub fn raw_retained(&self, lib: &mut Liba) -> (r: u64)
        requires
            self.inner.ok(*old(lib)),
            old(lib).valid(),
            old(lib).heap.room(self.inner.buf.addr),
        ensures
            r == self.inner.buf.addr,
            final(lib).valid(),
            final(lib).objs == old(lib).objs,
            effect(old(lib).heap, final(lib).heap, Seq::empty()),
            transfer(old(lib).heap, final(lib).heap, nothing(), one(r)),
    {
        self.inner.retain(lib).into_raw().addr
    }
}

/// A producer.
#[derive(Debug)]
pub struct AmSource {
    pub inner: A,
}

impl AmSource {
    /// Whether the producer exists.
    pub open spec fn ok(self, lib: Liba) -> bool {
        self.inner.ok(lib)
    }

    /// The producer's state.
    pub open spec fn state(self, lib: Liba) -> State {
        lib.state(self.inner.handle)
    }

    /// A new producer. The identity is 32 bits wide here.
    pub fn new(lib: &mut Liba, id: u32) -> (r: AmSource)
        requires
            old(lib).valid(),
        ensures
            r.ok(*final(lib)),
            !old(lib).live(r.inner.handle),
            new_window(r.state(*final(lib)).shared, id as u64),
            r.state(*final(lib)) == new_state(
                r.state(*final(lib)).shared,
                r.state(*final(lib)).payload,
            ),
            fresh_payload(old(lib).heap, final(lib).heap, r.state(*final(lib)).payload),
            forall|h: AHandle|
                h != r.inner.handle ==> (#[trigger] final(lib).live(h) <==> old(lib).live(h)),
            forall|h: AHandle|
                old(lib).live(h) ==> #[trigger] final(lib).state(h) == old(lib).state(h),
            transfer(old(lib).heap, final(lib).heap, nothing(), r.state(*final(lib)).held()),
            transfer(old(lib).heap, final(lib).heap, old(lib).held(), final(lib).held()),
    {
        AmSource { inner: A::new(lib, id as u64) }
    }

    /// The identity.
    pub fn id(&self, lib: &Liba) -> (r: u64)
        requires
            self.ok(*lib),
        ensures
            r == self.state(*lib).shared.id,
    {
        self.inner.id(lib)
    }

    /// The counter.
    pub fn counter(&self, lib: &Liba) -> (r: u64)
        requires
            self.ok(*lib),
        ensures
            r == self.state(*lib).shared.counter,
    {
        self.inner.counter(lib)
    }

    /// Refills the payload.
    pub fn fill(&mut self, lib: &mut Liba, seed: u8)
        requires
            old(self).ok(*old(lib)),
        ensures
            *final(self) == *old(self),
            old(self).state(*final(lib)) == (State {
                payload: old(self).state(*final(lib)).payload,
                ..old(self).state(*old(lib))
            }),
            filled(
                old(lib).heap,
                final(lib).heap,
                old(self).state(*old(lib)).payload,
                old(self).state(*final(lib)).payload,
                seed,
            ),
            old(lib).does(*final(lib), old(self).inner.handle, Event::Fill { seed }),
            old(lib).step(*final(lib), old(self).inner.handle, nothing()),
    {
        self.inner.fill(lib, seed)
    }

    /// Refills the payload; seed zero is refused.
    pub fn try_fill(&mut self, lib: &mut Liba, err: &mut LastError, seed: u8) -> (r: Result<
        (),
        AmError,
    >)
        requires
            old(self).ok(*old(lib)),
        ensures
            *final(self) == *old(self),
            r == (if seed == 0 {
                Err(AmError::InvalidArgument)
            } else {
                Ok(())
            }),
            final(err)@ == result_detail(
                old(err)@,
                if seed == 0 {
                    Err(AStatus::InvalidArgument)
                } else {
                    Ok(())
                },
            ),
            seed == 0 ==> final(lib).heap == old(lib).heap && old(self).state(*final(lib)) == old(
                self,
            ).state(*old(lib)),
            seed != 0 ==> old(self).state(*final(lib)) == (State {
                payload: old(self).state(*final(lib)).payload,
                ..old(self).state(*old(lib))
            }),
            seed != 0 ==> filled(
                old(lib).heap,
                final(lib).heap,
                old(self).state(*old(lib)).payload,
                old(self).state(*final(lib)).payload,
                seed,
            ),
            r is Ok ==> old(lib).does(*final(lib), old(self).inner.handle, Event::Fill { seed }),
            old(lib).step(*final(lib), old(self).inner.handle, nothing()),
    {
        match self.inner.try_fill(lib, err, seed) {
            Ok(()) => Ok(()),
            Err(e) => Err(map_status(e)),
        }
    }

    /// Moves the payload into storage of another kind. A kind that cannot be
    /// had right now shows as an internal error.
    pub fn set_storage(&mut self, lib: &mut Liba, err: &mut LastError, kind: u32) -> (r: Result<
        (),
        AmError,
    >)
        requires
            old(self).ok(*old(lib)),
        ensures
            *final(self) == *old(self),
            r == (match storage_answer(old(lib).heap.supply, kind, FRAME_LEN as int) {
                Ok(()) => Ok(()),
                Err(e) => Err(shown_error(e)),
            }),
            final(err)@ == result_detail(
                old(err)@,
                storage_answer(old(lib).heap.supply, kind, FRAME_LEN as int),
            ),
            stored(
                old(lib).heap,
                final(lib).heap,
                old(self).state(*old(lib)),
                old(self).state(*final(lib)),
                kind,
            ),
            old(lib).does(*final(lib), old(self).inner.handle, Event::Store { kind }),
            old(lib).step(*final(lib), old(self).inner.handle, nothing()),
    {
        match self.inner.set_storage(lib, err, kind) {
            Ok(()) => Ok(()),
            Err(e) => Err(map_status(e)),
        }
    }

    /// A snapshot of the payload.
    pub fn frame(&self, lib: &mut Liba) -> (r: AmFrame)
        requires
            self.ok(*old(lib)),
            old(lib).heap.room(self.state(*old(lib)).payload),
        ensures
            r.inner.buf.addr == self.state(*old(lib)).payload,
            r.inner.ok(*final(lib)),
            self.state(*final(lib)) == self.state(*old(lib)),
            effect(old(lib).heap, final(lib).heap, Seq::empty()),
            old(lib).step(*final(lib), self.inner.handle, one(r.inner.buf.addr)),
    {
        AmFrame { inner: self.inner.frame(lib) }
    }

    /// Starts a capture; `f` is the closure that completes it.
    pub fn capture(&self, lib: &mut Liba, f: u64) -> (r: (CaptureJob, OneShot<AmFrame>))
        requires
            self.ok(*old(lib)),
            self.state(*old(lib)).next_job < u64::MAX,
        ensures
            r.0 == self.state(*old(lib)).new_job(f),
            r.1 == (OneShot::<AmFrame> { value: None, waker: None }),
            self.state(*final(lib)) == self.state(*old(lib)).job_started(f),
            final(lib).heap == old(lib).heap,
            old(lib).does(*final(lib), self.inner.handle, Event::StartJob { f }),
            old(lib).step(*final(lib), self.inner.handle, nothing()),
    {
        (self.inner.capture_cb(lib, f), OneShot::new())
    }

    /// What the capture is completed with: the frame, whose ownership moves.
    pub fn captured(frame: ABuf) -> (r: AmFrame)
        ensures
            r.inner.buf == frame,
    {
        AmFrame { inner: once_trampoline(0, frame).1 }
    }

    /// The producer's handle, lent: valid while this source is.
    pub fn raw_handle(&self) -> (r: u64)
        ensures
            r == self.inner.handle.addr,
    {
        self.inner.as_raw().addr
    }
}

/// Foreign callers tell an invalid argument and a panic apart from each other
/// and from everything else.
pub proof fn law_shown_errors(e: AStatus)
    ensures
        shown_error(e) == AmError::InvalidArgument <==> e == AStatus::InvalidArgument,
        shown_error(e) == AmError::Panic <==> e == AStatus::Panic,
        shown_error(e) == AmError::Internal <==> e != AStatus::InvalidArgument && e
            != AStatus::Panic,
{
}

} // verus!
