//! What was asked for at the start is what comes of it later: callbacks,
//! captures and streams over any run of operations.

use vstd::prelude::*;
use crate::abi::A_DELIVERY_LATEST;
use crate::laws::{happens, is_run, lemma_run_wf, Event};
use crate::lending::is_heap_run;
use crate::outcomes::{
    can_be_had, law_frame_kind_is_selected, law_made_frame, of_kind_or_heap,
};
use crate::heap::Heap;
use crate::source::{
    capture_index, index_of, lemma_capture_index, lemma_index_of, lemma_job_index, job_index,
    ProducerStep, State,
};
use crate::streaming::frame_seed;
use crate::sub::{Delivery, Invocation, PumpStep, SubCb, SubEntry};
use crate::subscribe::closed;
use crate::teardown::closing;

verus! {

/// The call that `ev` begins for subscription `id`, if it begins one.
pub open spec fn call_begun(pre: State, ev: Event, id: u64) -> Option<Invocation> {
    match ev {
        Event::Pump { id: i } => match pre.pump_step(id) {
            PumpStep::Invoke(inv) => if i == id {
                Some(inv)
            } else {
                None
            },
            _ => None,
        },
        Event::Produce { out, .. } => match out {
            ProducerStep::Delivered { id: i, what: Delivery::Invoke(inv) } => if i == id {
                Some(inv)
            } else {
                None
            },
            _ => None,
        },
        _ => None,
    }
}

/// Whether `inv` calls exactly what was registered: the same function with
/// the same context, or the same closure.
pub open spec fn calls_back(inv: Invocation, cb: SubCb) -> bool {
    match cb {
        SubCb::C { cb, user } => inv matches Invocation::C { cb: c, user: u, .. } && c == cb && u
            == user,
        SubCb::Rust(f) => inv matches Invocation::Rust { f: g, .. } && g == f,
    }
}

/// Whether subscription `id`, while there is one, has the callback `cb`, and
/// a mailbox exactly where `latest` says so.
pub open spec fn registered(s: State, id: u64, cb: SubCb, latest: bool) -> bool {
    &&& id <= s.next_sub
    &&& forall|i: int|
        0 <= i < s.subs.len() && (#[trigger] s.subs[i]).id == id ==> s.subs[i].cb == cb && (
        s.subs[i].pump is Some) == latest
}

/// A step of tearing subscriptions down changes no callback and no policy.
proof fn lemma_closing_registered(s: Seq<SubEntry>, id: u64, cb: SubCb, latest: bool)
    requires
        forall|i: int|
            0 <= i < s.len() && (#[trigger] s[i]).id == id ==> s[i].cb == cb && (s[i].pump
                is Some) == latest,
    ensures
        forall|i: int|
            0 <= i < closing(s).0.len() && (#[trigger] closing(s).0[i]).id == id ==> closing(
                s,
            ).0[i].cb == cb && (closing(s).0[i].pump is Some) == latest,
    decreases s.len(),
{
    if s.len() > 0 && closed(s[0]).waits_for() is Done {
        let t = s.drop_first();
        assert forall|i: int| 0 <= i < t.len() && (#[trigger] t[i]).id == id implies t[i].cb == cb
            && (t[i].pump is Some) == latest by {
            assert(t[i] == s[i + 1]);
        }
        lemma_closing_registered(t, id, cb, latest);
    }
}

/// A subscription never changes its callback nor its policy.
proof fn lemma_registered_step(
    pre: State,
    ev: Event,
    post: State,
    id: u64,
    cb: SubCb,
    latest: bool,
)
    requires
        pre.wf(),
        happens(pre, ev, post),
        registered(pre, id, cb, latest),
    ensures
        registered(post, id, cb, latest),
{
    match ev {
        Event::Unsubscribe { id: j } => {
            lemma_index_of(pre.subs, j);
            let i = index_of(pre.subs, j);
            if i >= 0 && closed(pre.subs[i]).waits_for() is Done {
                assert forall|k: int|
                    0 <= k < post.subs.len() && (#[trigger] post.subs[k]).id == id implies
                    post.subs[k].cb == cb && (post.subs[k].pump is Some) == latest by {
                    assert(post.subs[k] == pre.subs[if k < i { k } else { k + 1 }]);
                }
            }
        },
        Event::Return { id: j } => {
            lemma_index_of(pre.subs, j);
        },
        Event::Pump { id: j } => {
            lemma_index_of(pre.subs, j);
        },
        Event::Produce { out, fresh } => {
            if pre.pending.len() > 0 {
                lemma_index_of(pre.subs, pre.pending[0]);
            }
        },
        Event::Destroy => {
            lemma_closing_registered(pre.subs, id, cb, latest);
        },
        _ => {},
    }
}

/// Along a run, from the subscription on, its callback and policy stay.
proof fn lemma_run_registered(
    states: Seq<State>,
    events: Seq<Event>,
    k: int,
    n: int,
    id: u64,
    cb: SubCb,
    latest: bool,
)
    requires
        is_run(states, events),
        0 <= k <= n < states.len(),
        registered(states[k], id, cb, latest),
    ensures
        registered(states[n], id, cb, latest),
    decreases n - k,
{
    if k < n {
        lemma_run_registered(states, events, k, n - 1, id, cb, latest);
        lemma_run_wf(states, events, n - 1);
        assert(happens(states[n - 1], events[n - 1], states[n - 1 + 1]));
        lemma_registered_step(states[n - 1], events[n - 1], states[n], id, cb, latest);
    }
}

/// A subscription is called back as it was registered: every call that is
/// ever begun for it, by the producer or by its pump, is of the very function
/// and context, or closure, that was given when it was made. Under the
/// mailbox policy its pump makes every call, otherwise the producer does.
pub proof fn law_callback_is_called_as_registered(
    states: Seq<State>,
    events: Seq<Event>,
    k: int,
    n: int,
    cb: SubCb,
    policy: u32,
    inv: Invocation,
)
    requires
        is_run(states, events),
        0 <= k < n < events.len(),
        events[k] == (Event::Subscribe { cb, policy }),
        call_begun(states[n], events[n], (states[k].next_sub + 1) as u64) == Some(inv),
    ensures
        calls_back(inv, cb),
        policy == A_DELIVERY_LATEST <==> events[n] is Pump,
{
    let id = (states[k].next_sub + 1) as u64;
    lemma_run_wf(states, events, k);
    lemma_run_wf(states, events, n);
    assert(happens(states[k], events[k], states[k + 1]));
    let s = states[k + 1];
    assert forall|i: int| 0 <= i < s.subs.len() && (#[trigger] s.subs[i]).id == id implies
        s.subs[i].cb == cb && (s.subs[i].pump is Some) == (policy == A_DELIVERY_LATEST) by {
        if i < states[k].subs.len() {
            assert(states[k].subs[i].id <= states[k].next_sub);
        }
    }
    lemma_run_registered(states, events, k + 1, n, id, cb, policy == A_DELIVERY_LATEST);
    assert(happens(states[n], events[n], states[n + 1]));
    lemma_index_of(states[n].subs, id);
}

/// Whether capture `id`, while there is one, has this callback and kind, and
/// is cancelled exactly where `gone` says so.
pub open spec fn capture_is(s: State, id: u64, f: u64, kind: u32, gone: bool) -> bool {
    &&& id <= s.next_sub
    &&& forall|i: int|
        0 <= i < s.captures.len() && (#[trigger] s.captures[i]).id == id ==> {
            &&& s.captures[i].cb == f
            &&& s.captures[i].kind == kind
            &&& s.captures[i].cancelled == gone
        }
}

/// Whether `ev` cancels capture `id`: it is cancelled itself, or a teardown
/// of the whole producer has come to it.
pub open spec fn cancels(pre: State, ev: Event, id: u64) -> bool {
    match ev {
        Event::Cancel { id: i } => i == id,
        Event::Destroy => {
            &&& pre.stream matches Some(p) ==> p.finished()
            &&& closing(pre.subs).1 is Done
            &&& pre.captures.len() > 0
            &&& pre.captures[0].id == id
        },
        _ => false,
    }
}

/// Whether anything cancelled capture `id` from event `k` until before `n`.
pub open spec fn was_cancelled(
    states: Seq<State>,
    events: Seq<Event>,
    id: u64,
    k: int,
    n: int,
) -> bool {
    exists|j: int| k <= j < n && cancels(states[j], #[trigger] events[j], id)
}

/// A capture never changes its callback nor its kind, and is cancelled once
/// and for all.
proof fn lemma_capture_step(
    pre: State,
    ev: Event,
    post: State,
    id: u64,
    f: u64,
    kind: u32,
    gone: bool,
)
    requires
        pre.wf(),
        happens(pre, ev, post),
        capture_is(pre, id, f, kind, gone),
    ensures
        capture_is(post, id, f, kind, gone || cancels(pre, ev, id)),
{
    match ev {
        Event::Fire { id: j, .. } => {
            lemma_capture_index(pre.captures, j);
        },
        Event::Cancel { id: j } => {
            lemma_capture_index(pre.captures, j);
            let i = capture_index(pre.captures, j);
            assert forall|l: int|
                0 <= l < post.captures.len() && (#[trigger] post.captures[l]).id == id implies {
                &&& post.captures[l].cb == f
                &&& post.captures[l].kind == kind
                &&& post.captures[l].cancelled == (gone || j == id)
            } by {
                assert(pre.captures[l].id == id);
                if l != i && j == id {
                    assert(pre.captures[i].id != pre.captures[l].id);
                }
            }
        },
        Event::FinishCapture { id: j } => {
            lemma_capture_index(pre.captures, j);
            let i = capture_index(pre.captures, j);
            assert forall|l: int| 0 <= l < post.captures.len() implies (
            #[trigger] post.captures[l]) == pre.captures[if l < i { l } else { l + 1 }] by {}
        },
        Event::Destroy => {
            assert forall|l: int|
                0 <= l < post.captures.len() && (#[trigger] post.captures[l]).id == id implies {
                &&& post.captures[l].cb == f
                &&& post.captures[l].kind == kind
                &&& post.captures[l].cancelled == (gone || cancels(pre, ev, id))
            } by {
                assert(pre.captures[l].id == id);
                if l != 0 && pre.captures[0].id == id {
                    assert(pre.captures[0].id != pre.captures[l].id);
                }
            }
        },
        _ => {},
    }
}

/// Along a run, from its start on, a capture keeps its callback and kind, and
/// is cancelled exactly where something cancelled it.
proof fn lemma_run_capture(
    states: Seq<State>,
    events: Seq<Event>,
    k: int,
    n: int,
    id: u64,
    f: u64,
    kind: u32,
)
    requires
        is_run(states, events),
        0 <= k <= n < states.len(),
        capture_is(states[k], id, f, kind, false),
    ensures
        capture_is(states[n], id, f, kind, was_cancelled(states, events, id, k, n)),
    decreases n - k,
{
    if k < n {
        lemma_run_capture(states, events, k, n - 1, id, f, kind);
        lemma_run_wf(states, events, n - 1);
        assert(happens(states[n - 1], events[n - 1], states[n - 1 + 1]));
        let gone = was_cancelled(states, events, id, k, n - 1);
        lemma_capture_step(states[n - 1], events[n - 1], states[n], id, f, kind, gone);
        if gone {
            let j = choose|j: int| k <= j < n - 1 && cancels(states[j], #[trigger] events[j], id);
            assert(k <= j < n && cancels(states[j], events[j], id));
        }
    }
}

/// Whether the frame at `buf` is a capture's: new, the receiver's alone, with
/// a captured frame's bytes, in storage of the kind that was selected, or of
/// the heap exactly where that kind cannot be had now.
pub open spec fn is_captured_frame(h0: Heap, h1: Heap, buf: u64, kind: u32) -> bool {
    &&& h0.count(buf) == 0
    &&& h1.count(buf) == 1
    &&& can_be_had(h0.supply, kind, 4096) ==> h1.storage(buf).kind == kind
    &&& !can_be_had(h0.supply, kind, 4096) ==> h1.storage(buf).kind == 0
    &&& of_kind_or_heap(h0.supply, kind, 4096, h1.storage(buf))
    &&& h1.bytes_at(buf).len() == 4096
    &&& forall|j: int| 0 <= j < 4096 ==> #[trigger] h1.bytes_at(buf)[j] == (0xCA + j) % 256
}

/// A capture that can be cancelled calls the callback that it was started
/// with. It comes with no frame exactly where it was cancelled before, itself
/// or by a teardown; otherwise with a new frame, in storage of the kind that
/// was selected when the capture was started, whatever was selected since, or
/// of the heap exactly where that kind cannot be had when it fires.
pub proof fn law_capture_yields_the_selected_kind(
    states: Seq<State>,
    heaps: Seq<Heap>,
    events: Seq<Event>,
    k: int,
    n: int,
    f: u64,
)
    requires
        is_heap_run(states, heaps, events),
        0 <= k < n < events.len(),
        events[k] == (Event::Capture { f }),
        events[n] matches Event::Fire { id, .. } && id == states[k].next_sub + 1,
    ensures
        states[n].capture((states[k].next_sub + 1) as u64).cb == f,
        events[n] matches Event::Fire { id, frame } ==> match frame {
            Some(fr) => {
                &&& !was_cancelled(states, events, id, k, n)
                &&& is_captured_frame(heaps[n], heaps[n + 1], fr.buf, states[k].frame_kind)
            },
            None => {
                &&& was_cancelled(states, events, id, k, n)
                &&& heaps[n + 1] == heaps[n]
            },
        },
{
    let id = (states[k].next_sub + 1) as u64;
    let kind = states[k].frame_kind;
    lemma_run_wf(states, events, k);
    lemma_run_wf(states, events, n);
    assert(happens(states[k], events[k], states[k + 1]));
    let s = states[k + 1];
    assert forall|i: int| 0 <= i < s.captures.len() && (#[trigger] s.captures[i]).id == id implies
        s.captures[i].cb == f && s.captures[i].kind == kind && !s.captures[i].cancelled by {
        if i < states[k].captures.len() {
            assert(states[k].captures[i].id <= states[k].next_sub);
        }
    }
    lemma_run_capture(states, events, k + 1, n, id, f, kind);
    if was_cancelled(states, events, id, k, n) {
        let j = choose|j: int| k <= j < n && cancels(states[j], #[trigger] events[j], id);
        assert(k + 1 <= j < n && cancels(states[j], events[j], id));
    }
    if was_cancelled(states, events, id, k + 1, n) {
        let j = choose|j: int| k + 1 <= j < n && cancels(states[j], #[trigger] events[j], id);
        assert(k <= j < n && cancels(states[j], events[j], id));
    }
    assert(happens(states[n], events[n], states[n + 1]));
    lemma_capture_index(states[n].captures, id);
    law_made_frame(heaps[n].supply, 0xCA, kind, 0);
}

/// Whether job `id`, while there is one, has this callback and kind.
pub open spec fn job_is(s: State, id: u64, f: u64, kind: u32) -> bool {
    &&& id <= s.next_job
    &&& forall|i: int|
        0 <= i < s.jobs.len() && (#[trigger] s.jobs[i]).id == id ==> s.jobs[i].cb == f
            && s.jobs[i].kind == kind
}

/// Along a run, from its start on, a job keeps its callback and kind.
proof fn lemma_run_job(
    states: Seq<State>,
    events: Seq<Event>,
    k: int,
    n: int,
    id: u64,
    f: u64,
    kind: u32,
)
    requires
        is_run(states, events),
        0 <= k <= n < states.len(),
        job_is(states[k], id, f, kind),
    ensures
        job_is(states[n], id, f, kind),
    decreases n - k,
{
    if k < n {
        lemma_run_job(states, events, k, n - 1, id, f, kind);
        lemma_run_wf(states, events, n - 1);
        assert(happens(states[n - 1], events[n - 1], states[n - 1 + 1]));
        let pre = states[n - 1];
        let post = states[n];
        match events[n - 1] {
            Event::FireJob { id: j, .. } => {
                lemma_job_index(pre.jobs, j);
            },
            Event::FinishJob { id: j } => {
                lemma_job_index(pre.jobs, j);
                let i = job_index(pre.jobs, j);
                assert forall|l: int| 0 <= l < post.jobs.len() implies (
                #[trigger] post.jobs[l]) == pre.jobs[if l < i { l } else { l + 1 }] by {}
            },
            _ => {},
        }
    }
}

/// A capture that cannot be cancelled calls the callback that it was started
/// with, and always with a new frame, in storage of the kind that was
/// selected when it was started, whatever was selected since, or of the heap
/// exactly where that kind cannot be had when it fires.
pub proof fn law_job_yields_the_selected_kind(
    states: Seq<State>,
    heaps: Seq<Heap>,
    events: Seq<Event>,
    k: int,
    n: int,
    f: u64,
)
    requires
        is_heap_run(states, heaps, events),
        0 <= k < n < events.len(),
        events[k] == (Event::StartJob { f }),
        events[n] matches Event::FireJob { id, .. } && id == states[k].next_job + 1,
    ensures
        states[n].job((states[k].next_job + 1) as u64).cb == f,
        events[n] matches Event::FireJob { id, with } ==> is_captured_frame(
            heaps[n],
            heaps[n + 1],
            with.buf,
            states[k].frame_kind,
        ),
{
    let id = (states[k].next_job + 1) as u64;
    let kind = states[k].frame_kind;
    lemma_run_wf(states, events, k);
    lemma_run_wf(states, events, n);
    assert(happens(states[k], events[k], states[k + 1]));
    let s = states[k + 1];
    assert forall|i: int| 0 <= i < s.jobs.len() && (#[trigger] s.jobs[i]).id == id implies
        s.jobs[i].cb == f && s.jobs[i].kind == kind by {
        if i < states[k].jobs.len() {
            assert(states[k].jobs[i].id <= states[k].next_job);
        }
    }
    lemma_run_job(states, events, k + 1, n, id, f, kind);
    assert(happens(states[n], events[n], states[n + 1]));
    lemma_job_index(states[n].jobs, id);
    law_made_frame(heaps[n].supply, 0xCA, kind, 0);
}

/// The kind of emitted frames is the one that was selected last, of those
/// that could be had.
pub proof fn law_selected_kind_stays(
    states: Seq<State>,
    heaps: Seq<Heap>,
    events: Seq<Event>,
    j: int,
    k: int,
    kind: u32,
)
    requires
        is_heap_run(states, heaps, events),
        0 <= j < k < states.len(),
        events[j] == (Event::FrameStore { kind }),
        can_be_had(heaps[j].supply, kind, 1),
        forall|i: int|
            j < i < k ==> (#[trigger] events[i] matches Event::FrameStore { kind: other }
                ==> !can_be_had(heaps[i].supply, other, 1)),
    ensures
        states[k].frame_kind == kind,
    decreases k - j,
{
    let i = k - 1;
    assert(happens(states[i], events[i], states[i + 1]));
    if j < i {
        law_selected_kind_stays(states, heaps, events, j, i, kind);
    }
    if let Event::FrameStore { kind: other } = events[i] {
        law_frame_kind_is_selected(heaps[i], heaps[i + 1], states[i], states[i + 1], other);
    }
}

/// How many frames were made by the events from `k` until before `n`.
pub open spec fn made_between(events: Seq<Event>, k: int, n: int) -> nat
    decreases n - k,
{
    if n <= k {
        0
    } else {
        made_between(events, k, n - 1) + if events[n - 1] matches Event::Produce { out, .. } && out
            is Produced {
            1nat
        } else {
            0
        }
    }
}

/// Along a run, from its start on, a stream keeps what it was started with,
/// and has made as many frames as it counts.
proof fn lemma_run_stream(
    states: Seq<State>,
    events: Seq<Event>,
    k: int,
    n: int,
    count: u32,
    period_ms: u32,
)
    requires
        is_run(states, events),
        0 <= k < n < states.len(),
        events[k] == (Event::Stream { count, period_ms }),
        forall|i: int| k < i < n ==> !(#[trigger] events[i] is Stream),
    ensures
        states[n].stream matches Some(p) ==> {
            &&& p.count == count
            &&& p.period_ms == period_ms
            &&& p.kind == states[k].frame_kind
            &&& p.next <= count
            &&& p.frame is Some ==> p.next < count
            &&& made_between(events, k, n) == p.next + if p.frame is Some {
                1int
            } else {
                0
            }
        },
    decreases n - k,
{
    let i = n - 1;
    assert(happens(states[i], events[i], states[i + 1]));
    lemma_run_wf(states, events, i);
    if k < i {
        lemma_run_stream(states, events, k, i, count, period_ms);
    } else {
        assert(made_between(events, k, k) == 0);
    }
}

/// A stream does what it was started for: its frames are numbered from zero
/// without a gap, it makes no more than were asked for, it says that it is
/// done only when it has made them all, and it sleeps for the period that was
/// asked for. Every frame has the bytes of its number, in storage of the kind
/// that was selected when the stream was started, or of the heap exactly
/// where that kind cannot be had when the frame is made.
pub proof fn law_stream_does_what_was_asked(
    states: Seq<State>,
    heaps: Seq<Heap>,
    events: Seq<Event>,
    k: int,
    n: int,
    count: u32,
    period_ms: u32,
)
    requires
        is_heap_run(states, heaps, events),
        0 <= k < n < events.len(),
        events[k] == (Event::Stream { count, period_ms }),
        forall|i: int| k < i < n ==> !(#[trigger] events[i] is Stream),
    ensures
        events[n] matches Event::Produce { out, fresh } ==> match out {
            ProducerStep::Produced { index } => {
                &&& index == made_between(events, k, n)
                &&& index < count
                &&& heaps[n].count(fresh) == 0
                &&& heaps[n + 1].count(fresh) == 1
                &&& of_kind_or_heap(
                    heaps[n].supply,
                    states[k].frame_kind,
                    4096,
                    heaps[n + 1].storage(fresh),
                )
                &&& heaps[n + 1].bytes_at(fresh).len() == 4096
                &&& forall|j: int|
                    0 <= j < 4096 ==> #[trigger] heaps[n + 1].bytes_at(fresh)[j] == (index + j)
                        % 256
            },
            ProducerStep::Done => made_between(events, k, n) == count,
            ProducerStep::Sleep(ms) => ms == period_ms,
            ProducerStep::Retired { index } => index + 1 == made_between(events, k, n),
            _ => true,
        },
{
    lemma_run_stream(states, events, k, n, count, period_ms);
    lemma_run_wf(states, events, n);
    assert(happens(states[n], events[n], states[n + 1]));
    if let Event::Produce { out: ProducerStep::Produced { index }, fresh } = events[n] {
        let seed = frame_seed(index);
        law_made_frame(heaps[n].supply, seed, states[k].frame_kind, index);
        assert forall|j: int| 0 <= j < 4096 implies #[trigger] heaps[n + 1].bytes_at(fresh)[j] == (
        index + j) % 256 by {
            assert(heaps[n + 1].bytes_at(fresh)[j] == (seed + j) % 256);
            assert((index % 256 + j) % 256 == (index + j) % 256);
        }
    }
}

/// How many of the first `n` events increment.
pub open spec fn increments(events: Seq<Event>, n: nat) -> nat
    decreases n,
{
    if n == 0 {
        0
    } else {
        increments(events, (n - 1) as nat) + if events[n - 1] is Increment {
            1nat
        } else {
            0
        }
    }
}

/// The window of public fields is written by increments alone: the counter
/// goes up by one with each, and everything else in the window stays.
pub proof fn law_counter_counts_increments(states: Seq<State>, events: Seq<Event>, n: nat)
    requires
        is_run(states, events),
        n <= events.len(),
    ensures
        ({
            let w0 = states[0].shared;
            let w = states[n as int].shared;
            &&& w.counter == w0.counter + increments(events, n)
            &&& w.id == w0.id
            &&& w.abi_version == w0.abi_version
            &&& w.struct_size == w0.struct_size
            &&& w.scale_bits == w0.scale_bits
            &&& w.fd == w0.fd
            &&& w._reserved == w0._reserved
        }),
    decreases n,
{
    if n > 0 {
        let m = n - 1;
        law_counter_counts_increments(states, events, m as nat);
        assert(happens(states[m], events[m], states[m + 1]));
    }
}

} // verus!
