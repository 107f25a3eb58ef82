//! The frame producer.
//!
//! A producer owns a payload, a list of subscriptions, captures in flight and
//! at most one stream. The threads that run the stream, the pumps and the
//! captures live outside: each calls one step function, does what the step
//! says, and calls again. Every step is one transition of the producer's
//! state under its lock.

use vstd::prelude::*;
use crate::abi::{ASharedV1, AStatus, A_ABI_VERSION, A_SCALE_BITS, A_SHARED_SIZE, A_STORAGE_HEAP};
use crate::capture::{CaptureEntry, CaptureJob};
use crate::frame::Frame;
use crate::heap::{
    both, detach_calls, detach_supply, detached, effect, freed, keeps, nothing, one, pattern,
    transfer, Heap, Holding, FRAME_LEN,
};
use crate::laws::{happens, Event};
use crate::lending::event_effect;
use crate::storage::{
    alloc_outcome, alloc_supply, bracket, copy_bytes, free_calls, zeroed, zeros, Access, Storage,
    StorageView, Supply, NO_FD,
};
use crate::sub::{delivery_refs, frame_refs, Delivery, SubEntry};

verus! {

/// A run of frames that a producer thread works through.
pub struct Producer {
    pub count: u32,
    pub period_ms: u32,
    /// Storage kind of the frames, fixed when the stream was started.
    pub kind: u32,
    /// Index of the frame in hand, or of the next one.
    pub next: u32,
    /// The frame in hand.
    pub frame: Option<Frame>,
    /// The subscription whose callback the producer thread is in.
    pub calling: Option<u64>,
    /// Whether the pause after the frame in hand has begun.
    pub sleeping: bool,
}

/// What the producer thread is to do.
#[derive(Debug)]
pub enum ProducerStep {
    /// Frame `index` was made, for everyone who was subscribed then.
    Produced { index: u32 },
    /// The frame in hand went to subscription `id`.
    Delivered { id: u64, what: Delivery },
    /// Sleep this many milliseconds.
    Sleep(u32),
    /// The frame in hand was let go of.
    Retired { index: u32 },
    /// All frames are out; end the thread.
    Done,
    /// The callback of this subscription has not returned.
    Busy(u64),
    /// There is no stream.
    Idle,
}

/// The references that leave with a step.
pub open spec fn producer_refs(s: ProducerStep) -> Holding {
    match s {
        ProducerStep::Delivered { what, .. } => delivery_refs(what),
        _ => nothing(),
    }
}

/// The producer.
pub struct A {
    pub shared: ASharedV1,
    pub name: [u8; 32],
    pub name_len: usize,
    pub payload: u64,
    pub subs: Vec<SubEntry>,
    /// Subscriptions that still get the frame in hand.
    pub pending: Vec<u64>,
    /// Storage kind of the frames that this producer emits, whatever kind
    /// its own payload has.
    pub frame_kind: u32,
    /// The last identifier that was given out.
    pub next_sub: u64,
    pub captures: Vec<CaptureEntry>,
    /// The number of the last capture that cannot be cancelled.
    pub next_job: u64,
    pub jobs: Vec<CaptureJob>,
    pub stream: Option<Producer>,
}

/// The producer as a value.
#[verifier::ext_equal]
pub struct State {
    pub shared: ASharedV1,
    pub payload: u64,
    pub subs: Seq<SubEntry>,
    pub pending: Seq<u64>,
    pub frame_kind: u32,
    pub next_sub: u64,
    pub captures: Seq<CaptureEntry>,
    pub next_job: u64,
    pub jobs: Seq<CaptureJob>,
    pub stream: Option<Producer>,
}

impl View for A {
    type V = State;

    open spec fn view(&self) -> State {
        State {
            shared: self.shared,
            payload: self.payload,
            subs: self.subs@,
            pending: self.pending@,
            frame_kind: self.frame_kind,
            next_sub: self.next_sub,
            captures: self.captures@,
            next_job: self.next_job,
            jobs: self.jobs@,
            stream: self.stream,
        }
    }
}

/// Where the subscription `id` stands, -1 if nowhere.
pub open spec fn index_of(s: Seq<SubEntry>, id: u64) -> int
    decreases s.len(),
{
    if s.len() == 0 {
        -1
    } else if s.last().id == id {
        s.len() - 1
    } else {
        index_of(s.drop_last(), id)
    }
}

/// Where the capture `id` stands, -1 if nowhere.
pub open spec fn capture_index(s: Seq<CaptureEntry>, id: u64) -> int
    decreases s.len(),
{
    if s.len() == 0 {
        -1
    } else if s.last().id == id {
        s.len() - 1
    } else {
        capture_index(s.drop_last(), id)
    }
}

/// Where the job `id` stands, -1 if nowhere.
pub open spec fn job_index(s: Seq<CaptureJob>, id: u64) -> int
    decreases s.len(),
{
    if s.len() == 0 {
        -1
    } else if s.last().id == id {
        s.len() - 1
    } else {
        job_index(s.drop_last(), id)
    }
}

/// The subscriptions that a new frame goes to, in the order in which they
/// were made.
pub open spec fn listed_ids(s: Seq<SubEntry>) -> Seq<u64>
    decreases s.len(),
{
    if s.len() == 0 {
        Seq::empty()
    } else if s.last().listed {
        listed_ids(s.drop_last()).push(s.last().id)
    } else {
        listed_ids(s.drop_last())
    }
}

/// References to `q` that the subscriptions hold.
pub open spec fn subs_refs(s: Seq<SubEntry>, q: u64) -> nat
    decreases s.len(),
{
    if s.len() == 0 {
        0
    } else {
        subs_refs(s.drop_last(), q) + s.last().held()(q)
    }
}

/// No two subscriptions share an identifier.
pub open spec fn distinct_subs(s: Seq<SubEntry>) -> bool {
    forall|i: int, j: int|
        0 <= i < j < s.len() ==> (#[trigger] s[i]).id != (#[trigger] s[j]).id
}

/// No two captures share an identifier.
pub open spec fn distinct_captures(s: Seq<CaptureEntry>) -> bool {
    forall|i: int, j: int|
        0 <= i < j < s.len() ==> (#[trigger] s[i]).id != (#[trigger] s[j]).id
}

/// No two jobs share a number.
pub open spec fn distinct_jobs(s: Seq<CaptureJob>) -> bool {
    forall|i: int, j: int|
        0 <= i < j < s.len() ==> (#[trigger] s[i]).id != (#[trigger] s[j]).id
}

impl Producer {
    /// Whether every frame is out.
    pub open spec fn finished(self) -> bool {
        self.frame is None && self.next == self.count
    }

    /// Frames are made in order, and one is in hand while it is delivered
    /// and during the pause after it.
    pub open spec fn wf(self, pending: Seq<u64>) -> bool {
        &&& self.next <= self.count
        &&& self.frame is Some ==> self.next < self.count
        &&& self.frame is None ==> pending.len() == 0 && self.calling is None && !self.sleeping
        &&& self.sleeping ==> pending.len() == 0 && self.calling is None
    }
}

impl State {
    /// The frame that the stream has in hand.
    pub open spec fn emitting(self) -> Option<Frame> {
        match self.stream {
            Some(p) => p.frame,
            None => None,
        }
    }

    /// The references that the producer holds: its payload, the frames in
    /// mailboxes and pumps, and the frame that the stream has in hand.
    pub open spec fn held(self) -> Holding {
        |q: u64|
            (one(self.payload)(q) + subs_refs(self.subs, q) + frame_refs(self.emitting())(
                q,
            )) as nat
    }

    /// Whether the producer thread is in the callback of `id`.
    pub open spec fn calling(self, id: u64) -> bool {
        self.stream matches Some(p) && p.calling == Some(id)
    }

    /// What every operation keeps.
    pub open spec fn wf(self) -> bool {
        &&& distinct_subs(self.subs)
        &&& distinct_captures(self.captures)
        &&& forall|i: int|
            0 <= i < self.subs.len() ==> (#[trigger] self.subs[i]).wf() && 1 <= self.subs[i].id
                <= self.next_sub
        &&& forall|i: int|
            0 <= i < self.captures.len() ==> 1 <= (#[trigger] self.captures[i]).id
                <= self.next_sub
        &&& distinct_jobs(self.jobs)
        &&& forall|i: int|
            0 <= i < self.jobs.len() ==> 1 <= (#[trigger] self.jobs[i]).id <= self.next_job
        &&& self.pending.no_duplicates()
        &&& forall|i: int|
            0 <= i < self.pending.len() ==> #[trigger] self.pending[i] <= self.next_sub
        &&& self.stream matches Some(p) ==> p.wf(self.pending)
        &&& self.stream is None ==> self.pending.len() == 0
        // A call of the producer thread is in flight exactly where the
        // stream says so.
        &&& forall|i: int|
            0 <= i < self.subs.len() && (#[trigger] self.subs[i]).pump is None ==> (
            self.subs[i].running <==> self.calling(self.subs[i].id))
        &&& self.stream matches Some(p) ==> (p.calling matches Some(id) ==> index_of(
            self.subs,
            id,
        ) >= 0 && self.subs[index_of(self.subs, id)].pump is None)
    }

    /// A well-formed producer whose references are counted.
    pub open spec fn valid(self, heap: Heap) -> bool {
        &&& heap.wf()
        &&& heap.covers(self.held())
        &&& self.wf()
    }

    /// Nothing is in flight: no stream, no subscription, no capture of
    /// either sort.
    pub open spec fn quiet(self) -> bool {
        &&& self.stream is None
        &&& self.subs.len() == 0
        &&& self.captures.len() == 0
        &&& self.jobs.len() == 0
    }
}

/// `index_of` is -1 or points at an entry with that identifier.
pub proof fn lemma_index_of(s: Seq<SubEntry>, id: u64)
    ensures
        -1 <= index_of(s, id) < s.len(),
        index_of(s, id) >= 0 ==> s[index_of(s, id)].id == id,
        index_of(s, id) < 0 ==> forall|i: int|
            0 <= i < s.len() ==> (#[trigger] s[i]).id != id,
        distinct_subs(s) ==> forall|i: int|
            0 <= i < s.len() && (#[trigger] s[i]).id == id ==> i == index_of(s, id),
    decreases s.len(),
{
    if s.len() > 0 && s.last().id != id {
        lemma_index_of(s.drop_last(), id);
        assert forall|i: int| index_of(s, id) < 0 && 0 <= i < s.len() implies (#[trigger] s[i]).id
            != id by {
            if i < s.len() - 1 {
                assert(s[i] == s.drop_last()[i]);
            }
        }
    }
}

/// `capture_index` is -1 or points at an entry with that identifier.
pub proof fn lemma_capture_index(s: Seq<CaptureEntry>, id: u64)
    ensures
        -1 <= capture_index(s, id) < s.len(),
        capture_index(s, id) >= 0 ==> s[capture_index(s, id)].id == id,
        capture_index(s, id) < 0 ==> forall|i: int|
            0 <= i < s.len() ==> (#[trigger] s[i]).id != id,
        distinct_captures(s) ==> forall|i: int|
            0 <= i < s.len() && (#[trigger] s[i]).id == id ==> i == capture_index(s, id),
    decreases s.len(),
{
    if s.len() > 0 && s.last().id != id {
        lemma_capture_index(s.drop_last(), id);
        assert forall|i: int|
            capture_index(s, id) < 0 && 0 <= i < s.len() implies (#[trigger] s[i]).id != id by {
            if i < s.len() - 1 {
                assert(s[i] == s.drop_last()[i]);
            }
        }
    }
}

/// `job_index` is -1 or points at a job with that number.
pub proof fn lemma_job_index(s: Seq<CaptureJob>, id: u64)
    ensures
        -1 <= job_index(s, id) < s.len(),
        job_index(s, id) >= 0 ==> s[job_index(s, id)].id == id,
        job_index(s, id) < 0 ==> forall|i: int| 0 <= i < s.len() ==> (#[trigger] s[i]).id != id,
        distinct_jobs(s) ==> forall|i: int|
            0 <= i < s.len() && (#[trigger] s[i]).id == id ==> i == job_index(s, id),
    decreases s.len(),
{
    if s.len() > 0 && s.last().id != id {
        lemma_job_index(s.drop_last(), id);
        assert forall|i: int| job_index(s, id) < 0 && 0 <= i < s.len() implies (#[trigger] s[i]).id
            != id by {
            if i < s.len() - 1 {
                assert(s[i] == s.drop_last()[i]);
            }
        }
    }
}

/// Replacing an entry changes the references by what the two entries hold.
pub proof fn lemma_subs_update(s: Seq<SubEntry>, i: int, e: SubEntry, q: u64)
    requires
        0 <= i < s.len(),
    ensures
        subs_refs(s.update(i, e), q) + s[i].held()(q) == subs_refs(s, q) + e.held()(q),
    decreases s.len(),
{
    if i == s.len() - 1 {
        assert(s.update(i, e).drop_last() =~= s.drop_last());
    } else {
        lemma_subs_update(s.drop_last(), i, e, q);
        assert(s.update(i, e).drop_last() =~= s.drop_last().update(i, e));
    }
}

/// Removing an entry removes what it holds.
pub proof fn lemma_subs_remove(s: Seq<SubEntry>, i: int, q: u64)
    requires
        0 <= i < s.len(),
    ensures
        subs_refs(s.remove(i), q) + s[i].held()(q) == subs_refs(s, q),
    decreases s.len(),
{
    if i == s.len() - 1 {
        assert(s.remove(i) =~= s.drop_last());
    } else {
        lemma_subs_remove(s.drop_last(), i, q);
        assert(s.remove(i).drop_last() =~= s.drop_last().remove(i));
        assert(s.remove(i).last() == s.last());
    }
}

/// An entry's references are among those of all entries.
pub proof fn lemma_subs_member(s: Seq<SubEntry>, i: int, q: u64)
    requires
        0 <= i < s.len(),
    ensures
        s[i].held()(q) <= subs_refs(s, q),
{
    lemma_subs_remove(s, i, q);
}

/// The first entries hold no more than all of them.
pub proof fn lemma_subs_prefix(s: Seq<SubEntry>, n: int, q: u64)
    requires
        0 <= n <= s.len(),
    ensures
        subs_refs(s.take(n), q) <= subs_refs(s, q),
    decreases s.len(),
{
    if n == s.len() {
        assert(s.take(n) =~= s);
    } else {
        lemma_subs_prefix(s.drop_last(), n, q);
        assert(s.drop_last().take(n) =~= s.take(n));
    }
}

/// What was counted before a transfer stays counted after it.
pub proof fn lemma_covers(pre: Heap, post: Heap, m0: Holding, m1: Holding, out: Holding)
    requires
        transfer(pre, post, m0, both(m1, out)),
        pre.covers(m0),
    ensures
        post.covers(m1),
        post.covers(both(m1, out)),
{
    assert forall|q: u64| #[trigger] both(m1, out)(q) <= post.count(q) by {
        assert(m0(q) <= pre.count(q));
        assert(post.count(q) + m0(q) == pre.count(q) + both(m1, out)(q));
    }
    assert forall|q: u64| #[trigger] m1(q) <= post.count(q) by {
        assert(both(m1, out)(q) <= post.count(q));
    }
}

/// A step of one entry is a step of its producer.
pub proof fn lemma_lift(h0: Heap, h1: Heap, s0: State, s1: State, i: int, out: Holding)
    requires
        0 <= i < s0.subs.len(),
        s1.subs.len() == s0.subs.len(),
        s1.subs == s0.subs.update(i, s1.subs[i]),
        s1.payload == s0.payload,
        s1.emitting() == s0.emitting(),
        transfer(h0, h1, s0.subs[i].held(), both(s1.subs[i].held(), out)),
    ensures
        transfer(h0, h1, s0.held(), both(s1.held(), out)),
{
    let e0 = s0.subs[i].held();
    let e1 = both(s1.subs[i].held(), out);
    assert forall|q: u64| #[trigger]
        h1.count(q) + s0.held()(q) == h0.count(q) + both(s1.held(), out)(q) by {
        lemma_subs_update(s0.subs, i, s1.subs[i], q);
        assert(h1.count(q) + e0(q) == h0.count(q) + e1(q));
    }
    assert forall|q: u64| h0.count(q) > s0.held()(q) implies #[trigger] h1.storage(q)
        == h0.storage(q) by {
        lemma_subs_member(s0.subs, i, q);
        assert(h0.count(q) > e0(q));
    }
}

/// Whether new frames go to subscription `id`.
pub open spec fn is_listed(s: Seq<SubEntry>, id: u64) -> bool {
    index_of(s, id) >= 0 && s[index_of(s, id)].listed
}

/// Frames go to subscriptions that were given out.
pub proof fn lemma_listed_known(s: State)
    requires
        s.wf(),
    ensures
        listed_ids(s.subs).no_duplicates(),
        forall|i: int|
            0 <= i < listed_ids(s.subs).len() ==> #[trigger] listed_ids(s.subs)[i] <= s.next_sub,
{
    let ids = listed_ids(s.subs);
    lemma_listed_ids(s.subs);
    assert forall|i: int| 0 <= i < ids.len() implies #[trigger] ids[i] <= s.next_sub by {
        assert(ids.contains(ids[i]));
        lemma_index_of(s.subs, ids[i]);
    }
}

/// New frames go to exactly the listed entries, to each once.
pub proof fn lemma_listed_ids(s: Seq<SubEntry>)
    requires
        distinct_subs(s),
    ensures
        listed_ids(s).no_duplicates(),
        forall|id: u64| #[trigger] listed_ids(s).contains(id) <==> is_listed(s, id),
    decreases s.len(),
{
    if s.len() > 0 {
        let t = s.drop_last();
        lemma_listed_ids(t);
        let a = listed_ids(t);
        let b = listed_ids(s);
        lemma_index_of(t, s.last().id);
        assert forall|id: u64| #[trigger] b.contains(id) <==> is_listed(s, id) by {
            lemma_index_of(t, id);
            if s.last().listed {
                assert(b[b.len() - 1] == s.last().id);
                if a.contains(id) {
                    let k = choose|k: int| 0 <= k < a.len() && a[k] == id;
                    assert(b[k] == id);
                }
                if b.contains(id) && id != s.last().id {
                    let k = choose|k: int| 0 <= k < b.len() && b[k] == id;
                    assert(a[k] == id);
                }
            }
            assert(a.contains(id) <==> is_listed(t, id));
        }
        assert(!a.contains(s.last().id)) by {
            assert(a.contains(s.last().id) <==> is_listed(t, s.last().id));
        }
        assert(b.no_duplicates());
    }
}

/// Whether `w` is the window of a new producer.
pub open spec fn new_window(w: ASharedV1, id: u64) -> bool {
    &&& w.abi_version == A_ABI_VERSION
    &&& w.struct_size == A_SHARED_SIZE
    &&& w.id == id
    &&& w.counter == 0
    &&& w.scale_bits == A_SCALE_BITS
    &&& w.fd == NO_FD
    &&& w._pad == 0
    &&& forall|i: int| 0 <= i < 24 ==> #[trigger] w._reserved@[i] == 0
}

/// A new producer with the given window and the payload at `buf`.
pub open spec fn new_state(w: ASharedV1, buf: u64) -> State {
    State {
        shared: w,
        payload: buf,
        subs: Seq::empty(),
        pending: Seq::empty(),
        frame_kind: A_STORAGE_HEAP,
        next_sub: 0,
        captures: Seq::empty(),
        next_job: 0,
        jobs: Seq::empty(),
        stream: None,
    }
}

/// What making a producer with the payload at `buf` does to the heap: a new
/// buffer of zero bytes in heap storage.
pub open spec fn fresh_payload(pre: Heap, post: Heap, buf: u64) -> bool {
    &&& pre.count(buf) == 0
    &&& post.count(buf) == 1
    &&& post.storage(buf) == (StorageView {
        kind: A_STORAGE_HEAP,
        fd: NO_FD,
        id: 0,
        bytes: zeros(FRAME_LEN as int),
    })
    &&& effect(pre, post, Seq::empty())
}

/// Whether storage of `kind` can be had, and if not, why.
pub open spec fn storage_answer(supply: Supply, kind: u32, len: int) -> Result<(), AStatus> {
    match alloc_outcome(supply, kind, len) {
        Ok(_) => Ok(()),
        Err(e) => Err(e),
    }
}

/// What moving the payload into storage of `kind` does: a new buffer with
/// the same bytes, written inside a bracket while the old one is read inside
/// one; nothing where that kind cannot be had.
pub open spec fn stored(pre: Heap, post: Heap, s0: State, s1: State, kind: u32) -> bool {
    &&& alloc_supply(pre.supply, kind, FRAME_LEN as int, post.supply)
    &&& match alloc_outcome(pre.supply, kind, FRAME_LEN as int) {
        Ok(fresh) => {
            &&& s1 == (State { payload: s1.payload, ..s0 })
            &&& pre.count(s1.payload) == 0
            &&& post.count(s1.payload) == 1
            &&& post.storage(s1.payload) == (StorageView {
                bytes: pre.bytes_at(s0.payload),
                ..fresh
            })
            &&& post.calls@ == pre.calls@ + bracket(
                fresh,
                Access::Write,
                bracket(pre.storage(s0.payload), Access::Read, Seq::empty()),
            ) + freed(pre, s0.payload)
            &&& keeps(pre, post)
        },
        Err(_) => s1 == s0 && post.slots == pre.slots && post.calls == pre.calls,
    }
}

/// What selecting `kind` for emitted frames does: a probe is allocated and
/// given back; nothing where that kind cannot be had.
pub open spec fn frame_stored(pre: Heap, post: Heap, s0: State, s1: State, kind: u32) -> bool {
    &&& alloc_supply(pre.supply, kind, 1, post.supply)
    &&& post.slots == pre.slots
    &&& match alloc_outcome(pre.supply, kind, 1) {
        Ok(probe) => {
            &&& s1 == (State { frame_kind: kind, ..s0 })
            &&& post.calls@ == pre.calls@ + free_calls(probe)
        },
        Err(_) => s1 == s0 && post.calls@ == pre.calls@,
    }
}

/// Whether an optional frame is the one at `b`, as a number.
fn refs_of(f: &Option<Frame>, b: u64) -> (r: usize)
    ensures
        r == frame_refs(*f)(b),
        r <= 1,
{
    match f {
        Some(f) => if f.buf == b {
            1
        } else {
            0
        },
        None => 0,
    }
}

impl A {
    /// How many references to the buffer at `b` the producer holds.
    pub fn refs_to(&self, b: u64) -> (r: usize)
        requires
            self@.held()(b) <= usize::MAX,
        ensures
            r == self@.held()(b),
    {
        let mut total: usize = if self.payload == b {
            1
        } else {
            0
        };
        let ghost first = total;
        let n = self.subs.len();
        let mut i: usize = 0;
        assert(self.subs@.take(0) =~= Seq::<SubEntry>::empty());
        while i < n
            invariant
                n == self.subs@.len(),
                i <= n,
                first == one(self.payload)(b),
                total == first + subs_refs(self.subs@.take(i as int), b),
                self@.held()(b) <= usize::MAX,
            decreases n - i,
        {
            proof {
                assert(self.subs@.take(i + 1).drop_last() =~= self.subs@.take(i as int));
                lemma_subs_prefix(self.subs@, i + 1, b);
            }
            if let Some(p) = &self.subs[i].pump {
                total = total + refs_of(&p.slot, b);
                total = total + refs_of(&p.current, b);
            }
            i = i + 1;
        }
        assert(self.subs@.take(n as int) =~= self.subs@);
        if let Some(p) = &self.stream {
            total = total + refs_of(&p.frame, b);
        }
        total
    }
}

impl A {
    /// A producer with a payload of zero bytes in heap storage.
    pub fn new(heap: &mut Heap, id: u64) -> (r: A)
        requires
            old(heap).wf(),
        ensures
            new_window(r@.shared, id),
            r@ == new_state(r@.shared, r@.payload),
            r@.valid(*final(heap)),
            fresh_payload(*old(heap), *final(heap), r@.payload),
            transfer(*old(heap), *final(heap), nothing(), r@.held()),
    {
        let shared = ASharedV1 {
            abi_version: A_ABI_VERSION,
            struct_size: A_SHARED_SIZE,
            id,
            counter: 0,
            scale_bits: A_SCALE_BITS,
            fd: NO_FD,
            _pad: 0,
            _reserved: [0u8;24],
        };
        let payload = heap.insert(Storage::Heap(zeroed(FRAME_LEN)));
        A {
            shared,
            name: [0u8;32],
            name_len: 0,
            payload,
            subs: Vec::new(),
            pending: Vec::new(),
            frame_kind: A_STORAGE_HEAP,
            next_sub: 0,
            captures: Vec::new(),
            next_job: 0,
            jobs: Vec::new(),
            stream: None,
        }
    }

    /// The identity.
    pub fn id(&self) -> (r: u64)
        ensures
            r == self@.shared.id,
    {
        self.shared.id
    }

    /// The counter.
    pub fn counter(&self) -> (r: u64)
        ensures
            r == self@.shared.counter,
    {
        self.shared.counter
    }

    /// Adds one to the counter.
    pub fn increment(&mut self)
        requires
            old(self)@.shared.counter < u64::MAX,
        ensures
            final(self)@ == (State {
                shared: ASharedV1 {
                    counter: (old(self)@.shared.counter + 1) as u64,
                    ..old(self)@.shared
                },
                ..old(self)@
            }),
            happens(old(self)@, Event::Increment, final(self)@),
    {
        self.shared.counter = self.shared.counter + 1;
    }

    /// The scale, in its IEEE 754 encoding.
    pub fn scale(&self) -> (r: u64)
        ensures
            r == self@.shared.scale_bits,
    {
        self.shared.scale_bits
    }

    /// The window with the public fields.
    pub fn shared(&self) -> (r: &ASharedV1)
        ensures
            *r == self@.shared,
    {
        &self.shared
    }

    /// The size of this struct, for diagnostics.
    pub fn impl_size() -> (r: usize)
        ensures
            r == vstd::layout::size_of::<A>(),
    {
        core::mem::size_of::<A>()
    }

    /// The payload's bytes.
    pub fn data<'a>(&self, heap: &'a Heap) -> (r: &'a [u8])
        requires
            self@.valid(*heap),
        ensures
            r@ == heap.bytes_at(self@.payload),
            r@.len() == FRAME_LEN,
    {
        assert(self@.held()(self.payload) <= heap.count(self.payload));
        heap.bytes(self.payload)
    }

    /// Refills the payload. Snapshots that are out keep the bytes they had.
    pub fn fill(&mut self, heap: &mut Heap, seed: u8)
        requires
            old(self)@.valid(*old(heap)),
        ensures
            final(self)@ == (State { payload: final(self)@.payload, ..old(self)@ }),
            final(self)@.valid(*final(heap)),
            happens(old(self)@, Event::Fill { seed }, final(self)@),
            event_effect(*old(heap), old(self)@, Event::Fill { seed }, *final(heap), final(self)@),
            filled(*old(heap), *final(heap), old(self)@.payload, final(self)@.payload, seed),
            transfer(*old(heap), *final(heap), old(self)@.held(), final(self)@.held()),
    {
        let ghost s0 = self@;
        let ghost h0 = *heap;
        assert(self@.held()(self.payload) <= heap.count(self.payload));
        self.payload = heap.fill(self.payload, seed);
        proof {
            lemma_repoint(h0, *heap, s0, self@);
        }
    }

    /// Refills the payload; seed zero is reserved.
    pub fn try_fill(&mut self, heap: &mut Heap, seed: u8) -> (r: Result<(), AStatus>)
        requires
            old(self)@.valid(*old(heap)),
        ensures
            r == (if seed == 0 {
                Err(AStatus::InvalidArgument)
            } else {
                Ok(())
            }),
            final(self)@.valid(*final(heap)),
            r is Ok ==> happens(old(self)@, Event::Fill { seed }, final(self)@),
            r is Ok ==> event_effect(
                *old(heap),
                old(self)@,
                Event::Fill { seed },
                *final(heap),
                final(self)@,
            ),
            seed == 0 ==> final(self)@ == old(self)@ && *final(heap) == *old(heap),
            seed != 0 ==> {
                &&& final(self)@ == (State { payload: final(self)@.payload, ..old(self)@ })
                &&& filled(
                    *old(heap),
                    *final(heap),
                    old(self)@.payload,
                    final(self)@.payload,
                    seed,
                )
            },
            transfer(*old(heap), *final(heap), old(self)@.held(), final(self)@.held()),
    {
        if seed == 0 {
            return Err(AStatus::InvalidArgument);
        }
        self.fill(heap, seed);
        Ok(())
    }

    /// Copies the payload's first bytes into `out`, as many as fit, and says
    /// how many.
    pub fn copy_data(&self, heap: &mut Heap, out: &mut [u8]) -> (n: usize)
        requires
            self@.valid(*old(heap)),
        ensures
            n == (if old(out)@.len() < FRAME_LEN {
                old(out)@.len()
            } else {
                FRAME_LEN as nat
            }),
            final(out)@ == old(heap).bytes_at(self@.payload).take(n as int) + old(out)@.skip(
                n as int,
            ),
            final(heap).slots == old(heap).slots,
            final(heap).supply == old(heap).supply,
            final(heap).calls@ == old(heap).calls@ + bracket(
                old(heap).storage(self@.payload),
                Access::Read,
                Seq::empty(),
            ),
            self@.valid(*final(heap)),
    {
        assert(self@.held()(self.payload) <= heap.count(self.payload));
        let ghost h0 = *heap;
        let room = out.len();
        let mut n: usize = FRAME_LEN;
        if room < n {
            n = room;
        }
        heap.open(self.payload, Access::Read);
        let mut i: usize = 0;
        while i < n
            invariant
                n <= FRAME_LEN,
                n <= room,
                room == out@.len(),
                room == old(out)@.len(),
                i <= n,
                heap.wf(),
                heap.live(self.payload),
                heap.bytes_at(self.payload) == h0.bytes_at(self.payload),
                heap.bytes_at(self.payload).len() == FRAME_LEN,
                heap.slots == h0.slots,
                heap.supply == h0.supply,
                heap.calls@ == h0.calls@ + crate::storage::open_calls(
                    h0.storage(self.payload),
                    Access::Read,
                ),
                forall|j: int| 0 <= j < i ==> out@[j] == h0.bytes_at(self.payload)[j],
                forall|j: int| i <= j < room ==> out@[j] == old(out)@[j],
            decreases n - i,
        {
            let src = heap.bytes(self.payload);
            out[i] = src[i];
            i = i + 1;
        }
        heap.close(self.payload, Access::Read);
        assert(out@ =~= h0.bytes_at(self@.payload).take(n as int) + old(out)@.skip(n as int));
        assert(heap.calls@ =~= h0.calls@ + bracket(
            h0.storage(self@.payload),
            Access::Read,
            Seq::empty(),
        ));
        proof {
            assert forall|q: u64| #[trigger] self@.held()(q) <= heap.count(q) by {
                assert(self@.held()(q) <= h0.count(q));
            }
        }
        n
    }

    /// Selects the storage kind of the frames that are emitted from now on.
    /// A probe allocation tells now whether the kind can be had.
    pub fn set_frame_storage(&mut self, heap: &mut Heap, kind: u32) -> (r: Result<(), AStatus>)
        requires
            old(self)@.valid(*old(heap)),
        ensures
            r == storage_answer(old(heap).supply, kind, 1),
            frame_stored(*old(heap), *final(heap), old(self)@, final(self)@, kind),
            final(self)@.valid(*final(heap)),
            happens(old(self)@, Event::FrameStore { kind }, final(self)@),
            event_effect(
                *old(heap),
                old(self)@,
                Event::FrameStore { kind },
                *final(heap),
                final(self)@,
            ),
    {
        let ghost h0 = *heap;
        let ghost s0 = self@;
        let probe = Storage::allocate(&mut heap.supply, kind, 1);
        let r = match probe {
            Ok(s) => {
                s.free(&mut heap.calls);
                self.frame_kind = kind;
                Ok(())
            },
            Err(e) => Err(e),
        };
        proof {
            assert forall|q: u64| #[trigger] self@.held()(q) <= heap.count(q) by {
                assert(s0.held()(q) <= h0.count(q));
            }
        }
        r
    }

    /// The storage kind of emitted frames.
    pub fn frame_storage(&self) -> (r: u32)
        ensures
            r == self@.frame_kind,
    {
        self.frame_kind
    }

    /// A snapshot of the payload: a reference to it, not a copy.
    pub fn frame(&self, heap: &mut Heap) -> (r: Frame)
        requires
            self@.valid(*old(heap)),
            old(heap).room(self@.payload),
        ensures
            r.buf == self@.payload,
            self@.valid(*final(heap)),
            final(heap).count(r.buf) == old(heap).count(r.buf) + 1,
            forall|q: u64| q != r.buf ==> #[trigger] final(heap).count(q) == old(heap).count(q),
            effect(*old(heap), *final(heap), Seq::empty()),
            transfer(*old(heap), *final(heap), nothing(), one(r.buf)),
    {
        let ghost h0 = *heap;
        assert(self@.held()(self.payload) <= heap.count(self.payload));
        heap.retain(self.payload);
        proof {
            assert forall|q: u64| #[trigger] self@.held()(q) <= heap.count(q) by {
                assert(self@.held()(q) <= h0.count(q));
                assert(heap.count(q) >= h0.count(q));
            }
        }
        Frame { buf: self.payload }
    }

    /// Moves the payload into fresh storage of the given kind, with its
    /// bytes. Snapshots that are out keep the storage they had.
    pub fn set_storage(&mut self, heap: &mut Heap, kind: u32) -> (r: Result<(), AStatus>)
        requires
            old(self)@.valid(*old(heap)),
        ensures
            r == storage_answer(old(heap).supply, kind, FRAME_LEN as int),
            stored(*old(heap), *final(heap), old(self)@, final(self)@, kind),
            final(self)@.valid(*final(heap)),
            happens(old(self)@, Event::Store { kind }, final(self)@),
            event_effect(*old(heap), old(self)@, Event::Store { kind }, *final(heap), final(self)@),
            transfer(*old(heap), *final(heap), old(self)@.held(), final(self)@.held()),
    {
        let ghost h0 = *heap;
        let ghost s0 = self@;
        assert(self@.held()(self.payload) <= heap.count(self.payload));
        let allocated = Storage::allocate(&mut heap.supply, kind, FRAME_LEN);
        match allocated {
            Err(e) => {
                proof {
                    assert forall|q: u64| #[trigger] self@.held()(q) <= heap.count(q) by {
                        assert(s0.held()(q) <= h0.count(q));
                    }
                }
                Err(e)
            },
            Ok(fresh) => {
                let mut fresh = fresh;
                let ghost fresh0 = fresh@;
                fresh.open(Access::Write, &mut heap.calls);
                heap.open(self.payload, Access::Read);
                copy_bytes(heap.bytes(self.payload), fresh.bytes_mut());
                heap.close(self.payload, Access::Read);
                fresh.close(Access::Write, &mut heap.calls);
                let p = heap.insert(fresh);
                heap.release(self.payload);
                self.payload = p;
                proof {
                    assert(heap.calls@ =~= h0.calls@ + bracket(
                        fresh0,
                        Access::Write,
                        bracket(h0.storage(s0.payload), Access::Read, Seq::empty()),
                    ) + freed(h0, s0.payload));
                    assert(transfer(h0, *heap, one(s0.payload), one(p)));
                    lemma_repoint(h0, *heap, s0, self@);
                }
                Ok(())
            },
        }
    }
}

/// What refilling the payload at `p` for `seed` does to the heap: the new
/// payload at `r` is the same buffer where nobody else holds it, else a copy.
pub open spec fn filled(pre: Heap, post: Heap, p: u64, r: u64, seed: u8) -> bool {
    &&& pre.count(p) == 1 ==> r == p
    &&& pre.count(p) > 1 ==> pre.count(r) == 0
    &&& post.count(r) == 1
    &&& post.storage(r) == (StorageView { bytes: pattern(seed), ..detached(pre, p) })
    &&& post.calls@ == pre.calls@ + detach_calls(pre, p) + bracket(
        detached(pre, p),
        Access::Write,
        Seq::empty(),
    )
    &&& detach_supply(pre, p, post.supply)
    &&& forall|q: u64|
        q != r && pre.live(q) && post.live(q) ==> #[trigger] post.storage(q) == pre.storage(q)
}

/// Exchanging the payload's reference is a step of the producer.
pub proof fn lemma_repoint(h0: Heap, h1: Heap, s0: State, s1: State)
    requires
        transfer(h0, h1, one(s0.payload), one(s1.payload)),
        h0.covers(s0.held()),
        s1.subs == s0.subs,
        s1.emitting() == s0.emitting(),
    ensures
        transfer(h0, h1, s0.held(), s1.held()),
        h1.covers(s1.held()),
{
    assert forall|q: u64| #[trigger] h1.count(q) + s0.held()(q) == h0.count(q) + s1.held()(q) by {
        assert(h1.count(q) + one(s0.payload)(q) == h0.count(q) + one(s1.payload)(q));
    }
    assert forall|q: u64| h0.count(q) > s0.held()(q) implies #[trigger] h1.storage(q)
        == h0.storage(q) by {
        assert(h0.count(q) > one(s0.payload)(q));
    }
    assert forall|q: u64| #[trigger] s1.held()(q) <= h1.count(q) by {
        assert(s0.held()(q) <= h0.count(q));
        assert(h1.count(q) + s0.held()(q) == h0.count(q) + s1.held()(q));
    }
}

/// A snapshot keeps its bytes: refilling a payload that somebody else holds
/// too leaves that buffer as it was, and the new bytes go elsewhere.
pub proof fn law_snapshot_keeps_its_bytes(pre: Heap, post: Heap, p: u64, r: u64, seed: u8)
    requires
        filled(pre, post, p, r, seed),
        transfer(pre, post, one(p), one(r)),
        pre.count(p) > 1,
    ensures
        r != p,
        post.live(p),
        post.storage(p) == pre.storage(p),
        post.bytes_at(r) == pattern(seed),
{
    assert(post.count(p) + one(p)(p) == pre.count(p) + one(r)(p));
}

/// Refilling a payload that nobody else holds happens in place: no copy, no
/// allocation, one bracketed write.
pub proof fn law_unshared_payload_is_filled_in_place(
    pre: Heap,
    post: Heap,
    p: u64,
    r: u64,
    seed: u8,
)
    requires
        filled(pre, post, p, r, seed),
        pre.count(p) == 1,
    ensures
        r == p,
        post.supply == pre.supply,
        post.calls@ == pre.calls@ + bracket(pre.storage(p), Access::Write, Seq::empty()),
        post.storage(p).kind == pre.storage(p).kind,
{
    assert(post.calls@ =~= pre.calls@ + bracket(pre.storage(p), Access::Write, Seq::empty()));
}

} // verus!
