//! Captures of a producer: started, cancelled, fired once, finished.

use vstd::prelude::*;
use crate::abi::AStatus;
use crate::capture::{capture_refs, CaptureEntry, CaptureJob, CaptureStep, CAPTURE_SEED};
use crate::frame::Frame;
use crate::heap::{alloc_effect, made_storage, making_calls, nothing, transfer, Heap};
use crate::laws::{happens, Event};
use crate::lending::event_effect;
use crate::oneshot::OneShot;
use crate::source::{
    capture_index, job_index, lemma_capture_index, lemma_job_index, State, A,
};
use crate::subscribe::lemma_same_held;

verus! {

/// A capture that was cancelled.
pub open spec fn cancelled(c: CaptureEntry) -> CaptureEntry {
    CaptureEntry { cancelled: true, listed: false, ..c }
}

/// What making the frame of a capture at `buf` does to the heap.
pub open spec fn captured(pre: Heap, post: Heap, buf: u64, kind: u32) -> bool {
    &&& pre.count(buf) == 0
    &&& post.count(buf) == 1
    &&& post.storage(buf) == made_storage(pre.supply, CAPTURE_SEED, kind)
    &&& alloc_effect(pre, post, kind, making_calls(pre.supply, CAPTURE_SEED, kind))
}

impl State {
    /// The state after a capture for `cb` was started.
    pub open spec fn capturing(self, cb: u64) -> State {
        let id = (self.next_sub + 1) as u64;
        State {
            next_sub: id,
            captures: self.captures.push(
                CaptureEntry {
                    id,
                    cb,
                    kind: self.frame_kind,
                    cancelled: false,
                    listed: true,
                    fired: false,
                },
            ),
            ..self
        }
    }

    /// Whether capture `id` has yet to call its callback.
    pub open spec fn waiting(self, id: u64) -> bool {
        let i = capture_index(self.captures, id);
        i >= 0 && !self.captures[i].fired
    }

    /// The capture `id`.
    pub open spec fn capture(self, id: u64) -> CaptureEntry {
        self.captures[capture_index(self.captures, id)]
    }

    /// What a capture for `cb` that cannot be cancelled begins as.
    pub open spec fn new_job(self, cb: u64) -> CaptureJob {
        CaptureJob { id: (self.next_job + 1) as u64, cb, kind: self.frame_kind, fired: false }
    }

    /// The state after such a capture was started.
    pub open spec fn job_started(self, cb: u64) -> State {
        let job = self.new_job(cb);
        State { next_job: job.id, jobs: self.jobs.push(job), ..self }
    }

    /// Whether job `id` has yet to call its callback.
    pub open spec fn job_waiting(self, id: u64) -> bool {
        let i = job_index(self.jobs, id);
        i >= 0 && !self.jobs[i].fired
    }

    /// The job `id`.
    pub open spec fn job(self, id: u64) -> CaptureJob {
        self.jobs[job_index(self.jobs, id)]
    }

    /// The state after job `id` called its callback.
    pub open spec fn job_fired(self, id: u64) -> State {
        State {
            jobs: self.jobs.update(
                job_index(self.jobs, id),
                CaptureJob { fired: true, ..self.job(id) },
            ),
            ..self
        }
    }

    /// Whether job `id` is in its callback.
    pub open spec fn job_in_call(self, id: u64) -> bool {
        job_index(self.jobs, id) >= 0 && self.job(id).fired
    }

    /// The state after the callback of job `id` has returned.
    pub open spec fn job_finished(self, id: u64) -> State {
        State { jobs: self.jobs.remove(job_index(self.jobs, id)), ..self }
    }

    /// The state after capture `id` was changed.
    pub open spec fn with_capture(self, id: u64, c: CaptureEntry) -> State {
        State { captures: self.captures.update(capture_index(self.captures, id), c), ..self }
    }
}

impl A {
    /// Where the capture `id` stands.
    pub(crate) fn find_capture(&self, id: u64) -> (r: Option<usize>)
        ensures
            r matches Some(i) ==> i < self.captures@.len() && i == capture_index(
                self.captures@,
                id,
            ),
            r is None ==> capture_index(self.captures@, id) < 0,
    {
        let n = self.captures.len();
        let mut i: usize = n;
        assert(self.captures@.take(n as int) =~= self.captures@);
        while i > 0
            invariant
                n == self.captures@.len(),
                i <= n,
                capture_index(self.captures@, id) == capture_index(
                    self.captures@.take(i as int),
                    id,
                ),
            decreases i,
        {
            assert(self.captures@.take(i as int).drop_last() =~= self.captures@.take(i - 1));
            if self.captures[i - 1].id == id {
                return Some(i - 1);
            }
            i = i - 1;
        }
        None
    }

    /// Where the job `id` stands.
    pub(crate) fn find_job(&self, id: u64) -> (r: Option<usize>)
        ensures
            r matches Some(i) ==> i < self.jobs@.len() && i == job_index(self.jobs@, id),
            r is None ==> job_index(self.jobs@, id) < 0,
    {
        let n = self.jobs.len();
        let mut i: usize = n;
        assert(self.jobs@.take(n as int) =~= self.jobs@);
        while i > 0
            invariant
                n == self.jobs@.len(),
                i <= n,
                job_index(self.jobs@, id) == job_index(self.jobs@.take(i as int), id),
            decreases i,
        {
            assert(self.jobs@.take(i as int).drop_last() =~= self.jobs@.take(i - 1));
            if self.jobs[i - 1].id == id {
                return Some(i - 1);
            }
            i = i - 1;
        }
        None
    }

    /// Starts a capture for the callback `f`, which is called once with a
    /// frame of its own. It cannot be cancelled, and takes no identifier from
    /// the subscriptions. The caller starts a thread that sleeps
    /// `CAPTURE_DELAY_MS`, fires the job, and finishes it; a teardown waits
    /// for that.
    pub fn capture_cb(&mut self, f: u64) -> (r: CaptureJob)
        requires
            old(self)@.wf(),
            old(self)@.next_job < u64::MAX,
        ensures
            r == old(self)@.new_job(f),
            final(self)@ == old(self)@.job_started(f),
            final(self)@.wf(),
            happens(old(self)@, Event::StartJob { f }, final(self)@),
            forall|h: Heap| old(self)@.valid(h) ==> #[trigger] final(self)@.valid(h),
    {
        let ghost s0 = self@;
        self.next_job = self.next_job + 1;
        let job = CaptureJob { id: self.next_job, cb: f, kind: self.frame_kind, fired: false };
        self.jobs.push(job);
        proof {
            lemma_job_started(s0, f);
            assert(self@ =~= s0.job_started(f));
            lemma_same_held(s0, self@);
        }
        job
    }

    /// A capture as a value that arrives once; `f` is the closure that
    /// completes it.
    pub fn capture(&mut self, f: u64) -> (r: (CaptureJob, OneShot<Frame>))
        requires
            old(self)@.wf(),
            old(self)@.next_job < u64::MAX,
        ensures
            r.0 == old(self)@.new_job(f),
            r.1 == (OneShot::<Frame> { value: None, waker: None }),
            final(self)@ == old(self)@.job_started(f),
            final(self)@.wf(),
            happens(old(self)@, Event::StartJob { f }, final(self)@),
            forall|h: Heap| old(self)@.valid(h) ==> #[trigger] final(self)@.valid(h),
    {
        (self.capture_cb(f), OneShot::new())
    }

    /// The moment of job `id`: its callback is to be called with the frame.
    pub fn fire_job(&mut self, heap: &mut Heap, id: u64) -> (r: CaptureStep)
        requires
            old(self)@.valid(*old(heap)),
        ensures
            match r {
                CaptureStep::Nothing => {
                    &&& !old(self)@.job_waiting(id)
                    &&& final(self)@ == old(self)@
                    &&& *final(heap) == *old(heap)
                },
                CaptureStep::Complete { cb, frame } => {
                    let j = old(self)@.job(id);
                    &&& old(self)@.job_waiting(id)
                    &&& cb == j.cb
                    &&& final(self)@ == old(self)@.job_fired(id)
                    &&& frame is Some
                    &&& captured(*old(heap), *final(heap), frame->Some_0.buf, j.kind)
                },
            },
            final(self)@.valid(*final(heap)),
            r matches CaptureStep::Complete { frame: Some(with), .. } ==> happens(
                old(self)@,
                Event::FireJob { id, with },
                final(self)@,
            ) && event_effect(
                *old(heap),
                old(self)@,
                Event::FireJob { id, with },
                *final(heap),
                final(self)@,
            ),
            transfer(*old(heap), *final(heap), nothing(), capture_refs(r)),
    {
        let ghost s0 = self@;
        let ghost h0 = *heap;
        let found = self.find_job(id);
        if found.is_none() {
            return CaptureStep::Nothing;
        }
        let i = found.unwrap();
        let job = self.jobs[i];
        if job.fired {
            return CaptureStep::Nothing;
        }
        self.jobs[i].fired = true;
        let frame = Frame { buf: heap.make_frame(CAPTURE_SEED, job.kind) };
        proof {
            assert(self@ =~= s0.job_fired(id));
            lemma_job_fired(s0, id);
            assert forall|q: u64| #[trigger] self@.held()(q) <= heap.count(q) by {
                assert(s0.held()(q) <= h0.count(q));
            }
        }
        CaptureStep::Complete { cb: job.cb, frame: Some(frame) }
    }

    /// The callback of job `id` has returned and its thread ends. Says
    /// whether that job was in its callback.
    pub fn finish_job(&mut self, id: u64) -> (r: bool)
        requires
            old(self)@.wf(),
        ensures
            r == old(self)@.job_in_call(id),
            final(self)@ == if r {
                old(self)@.job_finished(id)
            } else {
                old(self)@
            },
            r ==> job_index(final(self)@.jobs, id) < 0,
            final(self)@.wf(),
            r ==> happens(old(self)@, Event::FinishJob { id }, final(self)@),
            forall|h: Heap| old(self)@.valid(h) ==> #[trigger] final(self)@.valid(h),
    {
        let ghost s0 = self@;
        let found = self.find_job(id);
        if found.is_none() {
            return false;
        }
        let i = found.unwrap();
        if !self.jobs[i].fired {
            return false;
        }
        let _ = self.jobs.remove(i);
        proof {
            assert(self@ =~= s0.job_finished(id));
            lemma_job_finished(s0, id);
            lemma_same_held(s0, self@);
        }
        true
    }

    /// Starts a capture that can be cancelled. The callback is called exactly
    /// once, with a frame or, if cancelled first, with none. The caller
    /// starts a thread that sleeps `CAPTURE_DELAY_MS`, fires, and finishes.
    pub fn capture_cb_cancellable(&mut self, f: u64) -> (r: u64)
        requires
            old(self)@.wf(),
            old(self)@.next_sub < u64::MAX,
        ensures
            r == old(self)@.next_sub + 1,
            final(self)@ == old(self)@.capturing(f),
            final(self)@.wf(),
            happens(old(self)@, Event::Capture { f }, final(self)@),
            forall|h: Heap| old(self)@.valid(h) ==> #[trigger] final(self)@.valid(h),
    {
        let ghost s0 = self@;
        self.next_sub = self.next_sub + 1;
        let id = self.next_sub;
        self.captures.push(
            CaptureEntry {
                id,
                cb: f,
                kind: self.frame_kind,
                cancelled: false,
                listed: true,
                fired: false,
            },
        );
        proof {
            assert forall|k: int, l: int|
                0 <= k < l < self@.captures.len() implies (#[trigger] self@.captures[k]).id != (
            #[trigger] self@.captures[l]).id by {
                assert(s0.captures[k].id <= s0.next_sub);
            }
            assert forall|k: int| 0 <= k < self@.subs.len() implies (
            #[trigger] self@.subs[k]).wf() && 1 <= self@.subs[k].id <= self@.next_sub by {
                assert(s0.subs[k].wf());
            }
            lemma_same_held(s0, self@);
        }
        id
    }

    /// The capture's moment: whether it was cancelled is decided here, once.
    pub fn fire_capture(&mut self, heap: &mut Heap, id: u64) -> (r: CaptureStep)
        requires
            old(self)@.valid(*old(heap)),
        ensures
            match r {
                CaptureStep::Nothing => {
                    &&& !old(self)@.waiting(id)
                    &&& final(self)@ == old(self)@
                    &&& *final(heap) == *old(heap)
                },
                CaptureStep::Complete { cb, frame } => {
                    let c = old(self)@.capture(id);
                    &&& old(self)@.waiting(id)
                    &&& cb == c.cb
                    &&& frame is None <==> c.cancelled
                    &&& final(self)@ == old(self)@.with_capture(
                        id,
                        CaptureEntry { fired: true, ..c },
                    )
                    &&& frame is None ==> *final(heap) == *old(heap)
                    &&& frame matches Some(f) ==> captured(
                        *old(heap),
                        *final(heap),
                        f.buf,
                        c.kind,
                    )
                },
            },
            final(self)@.valid(*final(heap)),
            r matches CaptureStep::Complete { frame, .. } ==> happens(
                old(self)@,
                Event::Fire { id, frame },
                final(self)@,
            ) && event_effect(
                *old(heap),
                old(self)@,
                Event::Fire { id, frame },
                *final(heap),
                final(self)@,
            ),
            transfer(*old(heap), *final(heap), nothing(), capture_refs(r)),
    {
        let ghost s0 = self@;
        let ghost h0 = *heap;
        let found = self.find_capture(id);
        if found.is_none() {
            return CaptureStep::Nothing;
        }
        let i = found.unwrap();
        let c = self.captures[i];
        if c.fired {
            return CaptureStep::Nothing;
        }
        self.captures[i].fired = true;
        let mut frame: Option<Frame> = None;
        if !c.cancelled {
            frame = Some(Frame { buf: heap.make_frame(CAPTURE_SEED, c.kind) });
        }
        proof {
            assert(self@ =~= s0.with_capture(id, CaptureEntry { fired: true, ..c }));
            lemma_captures_update(s0, self@, i as int);
            assert forall|q: u64| #[trigger] self@.held()(q) <= heap.count(q) by {
                assert(s0.held()(q) <= h0.count(q));
            }
        }
        CaptureStep::Complete { cb: c.cb, frame }
    }

    /// The capture's callback has returned and its thread ends. Says whether
    /// there was such a capture.
    pub fn finish_capture(&mut self, id: u64) -> (r: bool)
        requires
            old(self)@.wf(),
        ensures
            r == (capture_index(old(self)@.captures, id) >= 0 && old(self)@.capture(id).fired),
            final(self)@ == if r {
                State {
                    captures: old(self)@.captures.remove(capture_index(old(self)@.captures, id)),
                    ..old(self)@
                }
            } else {
                old(self)@
            },
            r ==> capture_index(final(self)@.captures, id) < 0,
            final(self)@.wf(),
            r ==> happens(old(self)@, Event::FinishCapture { id }, final(self)@),
            forall|h: Heap| old(self)@.valid(h) ==> #[trigger] final(self)@.valid(h),
    {
        let ghost s0 = self@;
        let found = self.find_capture(id);
        if found.is_none() {
            return false;
        }
        let i = found.unwrap();
        if !self.captures[i].fired {
            return false;
        }
        let _ = self.captures.remove(i);
        proof {
            lemma_capture_index(s0.captures, id);
            lemma_capture_index(self@.captures, id);
            assert(self@.captures =~= s0.captures.remove(i as int));
            assert forall|k: int| 0 <= k < self@.captures.len() implies (
            #[trigger] self@.captures[k]) == s0.captures[if k < i { k } else { k + 1 }] by {}
            assert forall|k: int, l: int|
                0 <= k < l < self@.captures.len() implies (#[trigger] self@.captures[k]).id != (
            #[trigger] self@.captures[l]).id by {
                let a = if k < i { k } else { k + 1 };
                let b = if l < i { l } else { l + 1 };
                assert(s0.captures[a].id != s0.captures[b].id);
            }
            if capture_index(self@.captures, id) >= 0 {
                let k = capture_index(self@.captures, id);
                let a = if k < i { k } else { k + 1 };
                assert(s0.captures[a].id == id);
            }
            lemma_same_held(s0, self@);
        }
        true
    }

    /// Cancels a capture that has not been cancelled and has not finished.
    /// The caller then waits until `capture_in_flight` says no.
    pub fn cancel_capture(&mut self, id: u64) -> (r: Result<(), AStatus>)
        requires
            old(self)@.wf(),
        ensures
            r is Ok <==> capture_index(old(self)@.captures, id) >= 0 && old(self)@.capture(
                id,
            ).listed,
            r matches Err(e) ==> e == AStatus::InvalidArgument,
            final(self)@ == if r is Ok {
                old(self)@.with_capture(id, cancelled(old(self)@.capture(id)))
            } else {
                old(self)@
            },
            final(self)@.wf(),
            r is Ok ==> happens(old(self)@, Event::Cancel { id }, final(self)@),
            forall|h: Heap| old(self)@.valid(h) ==> #[trigger] final(self)@.valid(h),
    {
        let ghost s0 = self@;
        let found = self.find_capture(id);
        if found.is_none() {
            return Err(AStatus::InvalidArgument);
        }
        let i = found.unwrap();
        if !self.captures[i].listed {
            return Err(AStatus::InvalidArgument);
        }
        self.captures[i].listed = false;
        self.captures[i].cancelled = true;
        proof {
            assert(self@ =~= s0.with_capture(id, cancelled(s0.capture(id))));
            lemma_captures_update(s0, self@, i as int);
            lemma_same_held(s0, self@);
        }
        Ok(())
    }

    /// Whether capture `id` has yet to finish.
    pub fn capture_in_flight(&self, id: u64) -> (r: bool)
        ensures
            r == (capture_index(self@.captures, id) >= 0),
    {
        self.find_capture(id).is_some()
    }
}

/// Starting a job keeps the producer well-formed.
pub proof fn lemma_job_started(s: State, cb: u64)
    requires
        s.wf(),
        s.next_job < u64::MAX,
    ensures
        s.job_started(cb).wf(),
{
    let t = s.job_started(cb);
    assert forall|k: int, l: int| 0 <= k < l < t.jobs.len() implies (#[trigger] t.jobs[k]).id != (
    #[trigger] t.jobs[l]).id by {
        assert(s.jobs[k].id <= s.next_job);
        if l < s.jobs.len() {
            assert(s.jobs[k].id != s.jobs[l].id);
        }
    }
    assert forall|k: int| 0 <= k < t.jobs.len() implies 1 <= (#[trigger] t.jobs[k]).id
        <= t.next_job by {
        if k < s.jobs.len() {
            assert(1 <= s.jobs[k].id <= s.next_job);
        }
    }
}

/// Firing a job keeps the producer well-formed, and every job in its place.
pub proof fn lemma_job_fired(s: State, id: u64)
    requires
        s.wf(),
        job_index(s.jobs, id) >= 0,
    ensures
        s.job_fired(id).wf(),
        forall|j: u64| #[trigger] job_index(s.job_fired(id).jobs, j) == job_index(s.jobs, j),
{
    let t = s.job_fired(id);
    lemma_job_index(s.jobs, id);
    assert forall|k: int| 0 <= k < t.jobs.len() implies (#[trigger] t.jobs[k]).id
        == s.jobs[k].id by {}
    assert forall|k: int, l: int| 0 <= k < l < t.jobs.len() implies (#[trigger] t.jobs[k]).id != (
    #[trigger] t.jobs[l]).id by {
        assert(s.jobs[k].id != s.jobs[l].id);
    }
    assert forall|k: int| 0 <= k < t.jobs.len() implies 1 <= (#[trigger] t.jobs[k]).id
        <= t.next_job by {
        assert(1 <= s.jobs[k].id <= s.next_job);
    }
    assert forall|j: u64| #[trigger] job_index(t.jobs, j) == job_index(s.jobs, j) by {
        lemma_job_index(s.jobs, j);
        lemma_job_index(t.jobs, j);
        let k = job_index(t.jobs, j);
        if k >= 0 {
            assert(s.jobs[k].id == j);
        } else if job_index(s.jobs, j) >= 0 {
            assert(t.jobs[job_index(s.jobs, j)].id == j);
        }
    }
}

/// Finishing a job keeps the producer well-formed, and all others.
pub proof fn lemma_job_finished(s: State, id: u64)
    requires
        s.wf(),
        job_index(s.jobs, id) >= 0,
    ensures
        s.job_finished(id).wf(),
        job_index(s.job_finished(id).jobs, id) < 0,
        forall|j: u64|
            j != id ==> (#[trigger] job_index(s.job_finished(id).jobs, j) >= 0 <==> job_index(
                s.jobs,
                j,
            ) >= 0) && (job_index(s.jobs, j) >= 0 ==> s.job_finished(id).job(j) == s.job(j)),
{
    let t = s.job_finished(id);
    let i = job_index(s.jobs, id);
    lemma_job_index(s.jobs, id);
    assert forall|k: int| 0 <= k < t.jobs.len() implies (#[trigger] t.jobs[k]) == s.jobs[if k < i {
        k
    } else {
        k + 1
    }] by {}
    assert forall|k: int, l: int| 0 <= k < l < t.jobs.len() implies (#[trigger] t.jobs[k]).id != (
    #[trigger] t.jobs[l]).id by {
        let a = if k < i { k } else { k + 1 };
        let b = if l < i { l } else { l + 1 };
        assert(s.jobs[a].id != s.jobs[b].id);
    }
    lemma_job_index(t.jobs, id);
    if job_index(t.jobs, id) >= 0 {
        let k = job_index(t.jobs, id);
        assert(s.jobs[if k < i { k } else { k + 1 }].id == id);
    }
    assert forall|j: u64| j != id implies (#[trigger] job_index(t.jobs, j) >= 0 <==> job_index(
        s.jobs,
        j,
    ) >= 0) && (job_index(s.jobs, j) >= 0 ==> t.job(j) == s.job(j)) by {
        lemma_job_index(s.jobs, j);
        lemma_job_index(t.jobs, j);
        let a = job_index(s.jobs, j);
        let b = job_index(t.jobs, j);
        if a >= 0 {
            let m = if a < i { a } else { a - 1 };
            assert(t.jobs[m] == s.jobs[a]);
        }
        if b >= 0 {
            assert(s.jobs[if b < i { b } else { b + 1 }] == t.jobs[b]);
        }
    }
}

/// Changing a capture, but not its identifier, keeps the producer
/// well-formed.
pub proof fn lemma_captures_update(s0: State, s1: State, i: int)
    requires
        s0.wf(),
        0 <= i < s0.captures.len(),
        s1 == (State { captures: s0.captures.update(i, s1.captures[i]), ..s0 }),
        s1.captures[i].id == s0.captures[i].id,
    ensures
        s1.wf(),
        forall|id: u64| #[trigger]
            capture_index(s1.captures, id) == capture_index(s0.captures, id),
{
    assert forall|k: int, l: int| 0 <= k < l < s1.captures.len() implies (
    #[trigger] s1.captures[k]).id != (#[trigger] s1.captures[l]).id by {
        assert(s0.captures[k].id != s0.captures[l].id);
    }
    assert forall|k: int| 0 <= k < s1.captures.len() implies 1 <= (#[trigger] s1.captures[k]).id
        <= s1.next_sub by {
        assert(s0.captures[k].id <= s0.next_sub);
    }
    assert forall|id: u64| #[trigger]
        capture_index(s1.captures, id) == capture_index(s0.captures, id) by {
        lemma_capture_index(s0.captures, id);
        lemma_capture_index(s1.captures, id);
        let k = capture_index(s1.captures, id);
        if k >= 0 {
            assert(s0.captures[k].id == id);
        } else {
            let l = capture_index(s0.captures, id);
            if l >= 0 {
                assert(s1.captures[l].id == id);
            }
        }
    }
}

} // verus!
