//! The C entry points of the consumer library, over the producer library's
//! handles.

use vstd::prelude::*;
use crate::abi::{ABuf, AHandle, ASharedV1, A_ABI_VERSION};
use crate::b::{
    capture_checksum_cb, checksum, complete_checksum, data_ptr, fast_factors, frame_checksum,
    grab_frame, observed_impl_size, process, process_fast, summed,
};
use crate::capi::{lemma_handed_out, lemma_obj_valid, lemma_still, Liba};
use crate::capture::{CaptureJob, CAPTURE_SEED};
use crate::frame::Frame;
use crate::heap::{nothing, one, pattern, sum_bytes};
use crate::source::{State, A};

verus! {

impl Liba {
    /// Increments twice and adds the counter to the identity.
    pub fn b_process(&mut self, p: AHandle) -> (r: u64)
        requires
            old(self).valid(),
            old(self).live(p),
            old(self).state(p).shared.counter + 2 <= u64::MAX,
            old(self).state(p).shared.id + old(self).state(p).shared.counter + 2 <= u64::MAX,
        ensures
            r == old(self).state(p).shared.id + old(self).state(p).shared.counter + 2,
            final(self).state(p) == (State {
                shared: ASharedV1 {
                    counter: (old(self).state(p).shared.counter + 2) as u64,
                    ..old(self).state(p).shared
                },
                ..old(self).state(p)
            }),
            final(self).heap == old(self).heap,
            old(self).step(*final(self), p, nothing()),
    {
        let ghost pre = *self;
        proof {
            lemma_obj_valid(pre, p);
        }
        let i = self.slot(p);
        let mut r: u64 = 0;
        if let Some(x) = self.objs[i].as_mut() {
            r = process(x);
        }
        proof {
            lemma_still(pre, *self, p);
        }
        r
    }

    /// The factors of the fast path.
    pub fn b_process_fast(&self, p: AHandle) -> (r: Option<(u64, u64)>)
        requires
            self.live(p),
            self.state(p).shared.abi_version >= A_ABI_VERSION ==> self.state(p).shared.id
                + self.state(p).shared.counter <= u64::MAX,
        ensures
            r == fast_factors(self.state(p).shared),
    {
        process_fast(self.obj(p))
    }

    /// The implementation size that the consumer sees.
    pub fn b_observed_impl_size() -> (r: usize)
        ensures
            r == vstd::layout::size_of::<A>(),
    {
        observed_impl_size()
    }

    /// Starts a capture whose function gets the frame's checksum, when
    /// `b_complete_checksum` says so.
    pub fn b_capture_checksum(&mut self, p: AHandle, cb: u64) -> (r: CaptureJob)
        requires
            old(self).valid(),
            old(self).live(p),
            old(self).state(p).next_job < u64::MAX,
        ensures
            r == old(self).state(p).new_job(cb),
            final(self).state(p) == old(self).state(p).job_started(cb),
            final(self).heap == old(self).heap,
            old(self).step(*final(self), p, nothing()),
    {
        let ghost pre = *self;
        proof {
            lemma_obj_valid(pre, p);
        }
        let i = self.slot(p);
        let mut r = CaptureJob { id: 0, cb, kind: 0, fired: false };
        if let Some(x) = self.objs[i].as_mut() {
            r = capture_checksum_cb(x, cb);
        }
        proof {
            lemma_still(pre, *self, p);
        }
        r
    }

    /// The moment of such a capture: the function and what it is called with,
    /// or nothing where it was called before. The frame is gone afterwards.
    pub fn b_complete_checksum(&mut self, p: AHandle, id: u64) -> (r: Option<(u64, u64)>)
        requires
            old(self).valid(),
            old(self).live(p),
        ensures
            match r {
                None => {
                    &&& !old(self).state(p).job_waiting(id)
                    &&& final(self).state(p) == old(self).state(p)
                    &&& final(self).heap == old(self).heap
                },
                Some((cb, value)) => {
                    let job = old(self).state(p).job(id);
                    &&& old(self).state(p).job_waiting(id)
                    &&& cb == job.cb
                    &&& value == sum_bytes(pattern(CAPTURE_SEED))
                    &&& value == 522240
                    &&& final(self).state(p) == old(self).state(p).job_fired(id)
                    &&& summed(old(self).heap, final(self).heap, job.kind)
                },
            },
            old(self).step(*final(self), p, nothing()),
    {
        let ghost pre = *self;
        proof {
            lemma_obj_valid(pre, p);
        }
        let i = self.slot(p);
        let mut r: Option<(u64, u64)> = None;
        if let Some(x) = self.objs[i].as_mut() {
            r = complete_checksum(x, &mut self.heap, id);
        }
        proof {
            lemma_handed_out(pre, *self, p, nothing());
        }
        r
    }

    /// The sum of the payload's bytes.
    pub fn b_checksum(&self, p: AHandle) -> (r: u64)
        requires
            self.valid(),
            self.live(p),
        ensures
            r == sum_bytes(self.heap.bytes_at(self.state(p).payload)),
    {
        proof {
            lemma_obj_valid(*self, p);
        }
        checksum(self.obj(p), &self.heap)
    }

    /// Where the consumer sees the payload.
    pub fn b_data_ptr(&self, p: AHandle) -> (r: u64)
        requires
            self.live(p),
        ensures
            r == self.payload_view(p).ptr,
    {
        data_ptr(self.obj(p))
    }

    /// A snapshot of the payload; the caller owns one reference.
    pub fn b_grab_frame(&mut self, p: AHandle) -> (b: ABuf)
        requires
            old(self).valid(),
            old(self).live(p),
            old(self).heap.room(old(self).state(p).payload),
        ensures
            old(self).snapshot(*final(self), p, b),
    {
        let ghost pre = *self;
        proof {
            lemma_obj_valid(pre, p);
        }
        let i = self.slot(p);
        let mut b = ABuf { addr: 0 };
        if let Some(x) = self.objs[i].as_ref() {
            b = grab_frame(x, &mut self.heap).into_raw();
        }
        proof {
            assert(self.objs@ =~= pre.objs@.update(p.addr - 1, self.objs@[p.addr - 1]));
            lemma_handed_out(pre, *self, p, one(b.addr));
        }
        b
    }

    /// The sum of a buffer's bytes; the reference stays the caller's.
    pub fn b_frame_checksum(&self, b: ABuf) -> (r: u64)
        requires
            self.heap.wf(),
            self.heap.live(b.addr),
        ensures
            r == sum_bytes(self.heap.bytes_at(b.addr)),
    {
        frame_checksum(&Frame::from_raw(b), &self.heap)
    }
}

} // verus!
