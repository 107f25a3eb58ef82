//! What holds of a producer over any run of operations.
//!
//! A run is a sequence of states and of what led from each to the next. The
//! events below are the transitions that the operations' contracts state.

use vstd::prelude::*;
use crate::abi::ASharedV1;
use crate::capture::CaptureEntry;
use crate::capturing::{
    cancelled, lemma_captures_update, lemma_job_finished, lemma_job_fired, lemma_job_started,
};
use crate::frame::Frame;
use crate::heap::{
    detach_calls, detached, freed_all, made_storage, making_calls, occurrences, Heap,
};
use crate::source::{
    capture_index, distinct_subs, index_of, is_listed, job_index, lemma_capture_index,
    lemma_index_of, lemma_job_index, lemma_listed_ids, lemma_listed_known, listed_ids, Producer,
    ProducerStep, State,
};
use crate::storage::{
    balanced, bracket, free_calls, law_balanced_calls_compose, law_bracket_balanced,
    law_duplicate_balanced, Access, PlatformCall, StorageView,
};
use crate::streaming::produces;
use crate::sub::{Delivery, Pump, SubCb, SubEntry};
use crate::subscribe::{
    closed, lemma_index_update, lemma_wf_remove, lemma_wf_update, new_sub,
};
use crate::teardown::closing;

verus! {

/// One operation on a producer.
pub enum Event {
    Subscribe { cb: SubCb, policy: u32 },
    Unsubscribe { id: u64 },
    /// A call for `id` has returned.
    Return { id: u64 },
    /// A step of the pump of `id`.
    Pump { id: u64 },
    /// A step of the producer thread.
    Produce { out: ProducerStep, fresh: u64 },
    Capture { f: u64 },
    /// The callback of a capture is called, with a frame unless cancelled.
    Fire { id: u64, frame: Option<Frame> },
    FinishCapture { id: u64 },
    Cancel { id: u64 },
    /// A capture that cannot be cancelled is started.
    StartJob { f: u64 },
    /// The callback of such a capture is called.
    FireJob { id: u64, with: Frame },
    /// It has returned.
    FinishJob { id: u64 },
    Stream { count: u32, period_ms: u32 },
    Join,
    Increment,
    /// The payload is refilled.
    Fill { seed: u8 },
    /// The payload moves into storage of another kind, if that can be had.
    Store { kind: u32 },
    /// The kind of emitted frames is selected, if it can be had.
    FrameStore { kind: u32 },
    Destroy,
    /// Something that does not concern the producer: others take, give or
    /// write references of their own.
    Others,
}

/// Whether `ev` leads from `pre` to `post`.
pub open spec fn happens(pre: State, ev: Event, post: State) -> bool {
    match ev {
        Event::Subscribe { cb, policy } => pre.next_sub < u64::MAX && post == pre.subscribed(
            cb,
            policy,
        ),
        Event::Unsubscribe { id } => post == pre.unsubscribed(id),
        Event::Return { id } => pre.in_call(id) && post == pre.returned(id),
        Event::Pump { id } => post == pre.pumped(id),
        Event::Produce { out, fresh } => produces(pre, post, out, fresh),
        Event::Capture { f } => pre.next_sub < u64::MAX && post == pre.capturing(f),
        Event::Fire { id, frame } => {
            &&& pre.waiting(id)
            &&& frame is None <==> pre.capture(id).cancelled
            &&& post == pre.with_capture(id, CaptureEntry { fired: true, ..pre.capture(id) })
        },
        Event::FinishCapture { id } => {
            let i = capture_index(pre.captures, id);
            &&& i >= 0
            &&& pre.captures[i].fired
            &&& post == (State { captures: pre.captures.remove(i), ..pre })
        },
        Event::Cancel { id } => {
            let i = capture_index(pre.captures, id);
            &&& i >= 0
            &&& pre.captures[i].listed
            &&& post == pre.with_capture(id, cancelled(pre.captures[i]))
        },
        Event::StartJob { f } => pre.next_job < u64::MAX && post == pre.job_started(f),
        Event::FireJob { id, with } => pre.job_waiting(id) && post == pre.job_fired(id),
        Event::FinishJob { id } => pre.job_in_call(id) && post == pre.job_finished(id),
        Event::Stream { count, period_ms } => {
            &&& pre.stream matches Some(p) ==> p.finished()
            &&& post == (State {
                stream: Some(
                    Producer {
                        count,
                        period_ms,
                        kind: pre.frame_kind,
                        next: 0,
                        frame: None,
                        calling: None,
                        sleeping: false,
                    },
                ),
                ..pre
            })
        },
        Event::Join => {
            &&& pre.stream matches Some(p) ==> p.finished()
            &&& post == (State { stream: None, ..pre })
        },
        Event::Increment => {
            &&& pre.shared.counter < u64::MAX
            &&& post == (State {
                shared: ASharedV1 { counter: (pre.shared.counter + 1) as u64, ..pre.shared },
                ..pre
            })
        },
        Event::Fill { seed } => post == (State { payload: post.payload, ..pre }),
        Event::Store { kind } => post == (State { payload: post.payload, ..pre }),
        Event::FrameStore { kind } => post == (State { frame_kind: post.frame_kind, ..pre }),
        Event::Destroy => post == pre.destroyed(),
        Event::Others => post == pre,
    }
}

/// Whether `states` and `events` are a run that begins in a well-formed
/// state.
pub open spec fn is_run(states: Seq<State>, events: Seq<Event>) -> bool {
    &&& states.len() == events.len() + 1
    &&& states[0].wf()
    &&& forall|k: int|
        0 <= k < events.len() ==> happens(states[k], #[trigger] events[k], states[k + 1])
}

/// Tearing down the subscriptions of a producer without stream keeps it
/// well-formed.
proof fn lemma_wf_closing(s: State)
    requires
        s.wf(),
        s.stream is None,
    ensures
        (State { subs: closing(s.subs).0, ..s }).wf(),
    decreases s.subs.len(),
{
    if s.subs.len() > 0 {
        assert(s.subs[0].wf());
        if closed(s.subs[0]).waits_for() is Done {
            let t = State { subs: s.subs.drop_first(), ..s };
            assert(s.subs.drop_first() =~= s.subs.remove(0));
            lemma_wf_remove(s, t, 0);
            lemma_wf_closing(t);
        } else {
            let t = State { subs: s.subs.update(0, closed(s.subs[0])), ..s };
            lemma_wf_update(s, t, 0, closed(s.subs[0]));
        }
    } else {
        assert(closing(s.subs).0 =~= s.subs);
    }
}

/// Every operation keeps the producer well-formed: identifiers stay distinct
/// and below the last one given out, a call is in flight where the stream or
/// the pump says so, and a frame is in hand only while it is delivered.
pub proof fn law_every_operation_keeps_the_invariant(pre: State, ev: Event, post: State)
    requires
        pre.wf(),
        happens(pre, ev, post),
    ensures
        post.wf(),
{
    match ev {
        Event::Subscribe { cb, policy } => {
            let id = post.next_sub;
            assert(post.subs.drop_last() =~= pre.subs);
            lemma_index_of(pre.subs, id);
            assert forall|k: int, l: int|
                0 <= k < l < post.subs.len() implies (#[trigger] post.subs[k]).id != (
            #[trigger] post.subs[l]).id by {
                assert(pre.subs[k].wf());
            }
            if post.stream is Some && post.stream->Some_0.calling is Some {
                lemma_index_of(pre.subs, post.stream->Some_0.calling->Some_0);
            }
        },
        Event::Unsubscribe { id } => {
            lemma_index_of(pre.subs, id);
            let i = index_of(pre.subs, id);
            if i >= 0 {
                assert(pre.subs[i].wf());
                if closed(pre.subs[i]).waits_for() is Done {
                    lemma_wf_remove(pre, post, i);
                } else {
                    lemma_wf_update(pre, post, i, closed(pre.subs[i]));
                }
            }
        },
        Event::Return { id } => {
            lemma_index_of(pre.subs, id);
            let i = index_of(pre.subs, id);
            assert(pre.subs[i].wf());
            lemma_wf_update(pre, post, i, pre.subs[i].finished());
        },
        Event::Pump { id } => {
            lemma_index_of(pre.subs, id);
            let i = index_of(pre.subs, id);
            if i >= 0 {
                assert(pre.subs[i].wf());
                lemma_wf_update(pre, post, i, pre.subs[i].pumped());
            }
        },
        Event::Produce { out, fresh } => {
            lemma_listed_known(pre);
            if pre.pending.len() > 0 && pre.emitting() is Some {
                let id = pre.pending[0];
                lemma_index_of(pre.subs, id);
                let i = index_of(pre.subs, id);
                if i >= 0 && pre.stream->Some_0.calling is None {
                    assert(pre.subs[i].wf());
                    lemma_wf_update(
                        pre,
                        post,
                        i,
                        pre.subs[i].delivered(pre.emitting()->Some_0.buf),
                    );
                }
            }
        },
        Event::Capture { f } => {
            assert forall|k: int, l: int|
                0 <= k < l < post.captures.len() implies (#[trigger] post.captures[k]).id != (
            #[trigger] post.captures[l]).id by {
                assert(pre.captures[k].id <= pre.next_sub);
            }
            assert forall|k: int| 0 <= k < post.subs.len() implies (#[trigger] post.subs[k]).wf()
                && 1 <= post.subs[k].id <= post.next_sub by {
                assert(pre.subs[k].wf());
            }
        },
        Event::Fire { id, .. } => {
            lemma_capture_index(pre.captures, id);
            lemma_captures_update(pre, post, capture_index(pre.captures, id));
        },
        Event::Cancel { id } => {
            lemma_capture_index(pre.captures, id);
            lemma_captures_update(pre, post, capture_index(pre.captures, id));
        },
        Event::FinishCapture { id } => {
            lemma_capture_index(pre.captures, id);
            let i = capture_index(pre.captures, id);
            assert forall|k: int| 0 <= k < post.captures.len() implies (
            #[trigger] post.captures[k]) == pre.captures[if k < i { k } else { k + 1 }] by {}
            assert forall|k: int, l: int|
                0 <= k < l < post.captures.len() implies (#[trigger] post.captures[k]).id != (
            #[trigger] post.captures[l]).id by {
                let a = if k < i { k } else { k + 1 };
                let b = if l < i { l } else { l + 1 };
                assert(pre.captures[a].id != pre.captures[b].id);
            }
        },
        Event::StartJob { f } => {
            lemma_job_started(pre, f);
        },
        Event::FireJob { id, .. } => {
            lemma_job_fired(pre, id);
        },
        Event::FinishJob { id } => {
            lemma_job_finished(pre, id);
        },
        Event::Destroy => {
            if !(pre.stream matches Some(p) && !p.finished()) {
                let s = State { stream: None, ..pre };
                assert(s.wf());
                lemma_wf_closing(s);
                if pre.captures.len() > 0 && closing(pre.subs).1 is Done {
                    let t = State { subs: closing(s.subs).0, ..s };
                    lemma_closing_done(pre.subs);
                    lemma_captures_update(t, post, 0);
                } else if closing(pre.subs).1 is Done {
                    lemma_closing_done(pre.subs);
                }
            }
        },
        _ => {},
    }
}

/// Tearing down the subscriptions ends with none left.
proof fn lemma_closing_done(s: Seq<SubEntry>)
    requires
        closing(s).1 is Done,
    ensures
        closing(s).0 == Seq::<SubEntry>::empty(),
    decreases s.len(),
{
    if s.len() > 0 {
        lemma_closing_done(s.drop_first());
    }
}

/// Along a run, every state is well-formed.
pub(crate) proof fn lemma_run_wf(states: Seq<State>, events: Seq<Event>, k: int)
    requires
        is_run(states, events),
        0 <= k < states.len(),
    ensures
        states[k].wf(),
    decreases k,
{
    if k > 0 {
        lemma_run_wf(states, events, k - 1);
        assert(happens(states[k - 1], events[k - 1], states[k - 1 + 1]));
        law_every_operation_keeps_the_invariant(states[k - 1], events[k - 1], states[k]);
    }
}

/// Whether `ev` begins a call for subscription `id`.
pub open spec fn begins_call(pre: State, ev: Event, id: u64) -> bool {
    match ev {
        Event::Pump { id: i } => i == id && pre.pump_step(id) is Invoke,
        Event::Produce { out, .. } => out matches ProducerStep::Delivered { id: i, what } && i
            == id && what is Invoke,
        _ => false,
    }
}

/// No subscription `id` exists, though that identifier was given out.
pub open spec fn is_gone(s: State, id: u64) -> bool {
    &&& id <= s.next_sub
    &&& index_of(s.subs, id) < 0
}

/// Tearing down subscriptions brings none back.
proof fn lemma_closing_ids(s: Seq<SubEntry>, id: u64)
    requires
        index_of(s, id) < 0,
    ensures
        index_of(closing(s).0, id) < 0,
    decreases s.len(),
{
    if s.len() > 0 {
        lemma_index_of(s, id);
        if closed(s[0]).waits_for() is Done {
            let t = s.drop_first();
            lemma_index_of(t, id);
            if index_of(t, id) >= 0 {
                assert(s[index_of(t, id) + 1].id == id);
            }
            lemma_closing_ids(t, id);
        } else {
            lemma_index_update(s, 0, closed(s[0]), id);
        }
    }
}

/// Removing an entry brings none back.
proof fn lemma_index_remove(s: Seq<SubEntry>, i: int, id: u64)
    requires
        0 <= i < s.len(),
        index_of(s, id) < 0,
    ensures
        index_of(s.remove(i), id) < 0,
{
    lemma_index_of(s, id);
    lemma_index_of(s.remove(i), id);
    let k = index_of(s.remove(i), id);
    if k >= 0 {
        assert(s[if k < i { k } else { k + 1 }].id == id);
    }
}

/// Identifiers are never given out again.
proof fn lemma_stays_gone(pre: State, ev: Event, post: State, id: u64)
    requires
        pre.wf(),
        happens(pre, ev, post),
        is_gone(pre, id),
    ensures
        is_gone(post, id),
{
    lemma_index_of(pre.subs, id);
    match ev {
        Event::Subscribe { cb, policy } => {
            assert(post.subs.drop_last() =~= pre.subs);
        },
        Event::Unsubscribe { id: j } => {
            lemma_index_of(pre.subs, j);
            let i = index_of(pre.subs, j);
            if i >= 0 {
                lemma_index_remove(pre.subs, i, id);
                lemma_index_update(pre.subs, i, closed(pre.subs[i]), id);
            }
        },
        Event::Return { id: j } => {
            lemma_index_of(pre.subs, j);
            let i = index_of(pre.subs, j);
            lemma_index_update(pre.subs, i, pre.subs[i].finished(), id);
        },
        Event::Pump { id: j } => {
            lemma_index_of(pre.subs, j);
            let i = index_of(pre.subs, j);
            if i >= 0 {
                lemma_index_update(pre.subs, i, pre.subs[i].pumped(), id);
            }
        },
        Event::Produce { out, fresh } => {
            if pre.pending.len() > 0 {
                let j = pre.pending[0];
                lemma_index_of(pre.subs, j);
                let i = index_of(pre.subs, j);
                if i >= 0 && pre.emitting() is Some {
                    lemma_index_update(
                        pre.subs,
                        i,
                        pre.subs[i].delivered(pre.emitting()->Some_0.buf),
                        id,
                    );
                }
            }
        },
        Event::Destroy => {
            lemma_closing_ids(pre.subs, id);
        },
        _ => {},
    }
}

/// Along a run, a subscription that is gone stays gone.
proof fn lemma_run_stays_gone(states: Seq<State>, events: Seq<Event>, id: u64, k: int)
    requires
        is_run(states, events),
        is_gone(states[0], id),
        0 <= k < states.len(),
    ensures
        is_gone(states[k], id),
    decreases k,
{
    if k > 0 {
        lemma_run_stays_gone(states, events, id, k - 1);
        lemma_run_wf(states, events, k - 1);
        assert(happens(states[k - 1], events[k - 1], states[k - 1 + 1]));
        lemma_stays_gone(states[k - 1], events[k - 1], states[k], id);
    }
}

/// Once `unsubscribe` says `Done`, no call for that subscription is in
/// flight, and whatever is done from then on, none will begin.
pub proof fn law_no_call_after_unsubscribe(
    pre: State,
    states: Seq<State>,
    events: Seq<Event>,
    id: u64,
)
    requires
        pre.wf(),
        id <= pre.next_sub,
        pre.teardown(id) is Done,
        states[0] == pre.unsubscribed(id),
        is_run(states, events),
    ensures
        !states[0].in_call(id),
        forall|k: int| 0 <= k < events.len() ==> !begins_call(states[k], #[trigger] events[k], id),
{
    lemma_index_of(pre.subs, id);
    let i = index_of(pre.subs, id);
    if i >= 0 {
        lemma_index_of(states[0].subs, id);
        let k = index_of(states[0].subs, id);
        if k >= 0 {
            assert(pre.subs[if k < i { k } else { k + 1 }].id == id);
        }
    }
    assert(is_gone(states[0], id));
    assert forall|k: int| 0 <= k < events.len() implies !begins_call(
        states[k],
        #[trigger] events[k],
        id,
    ) by {
        lemma_run_stays_gone(states, events, id, k);
        lemma_run_wf(states, events, k);
        assert(happens(states[k], events[k], states[k + 1]));
    }
}

/// From the first `unsubscribe` on, even while it waits, no new call begins:
/// neither on the producer's thread nor on the pump's. Only a call that was
/// in flight may still return.
pub proof fn law_closed_is_never_called(e: SubEntry, buf: u64)
    ensures
        closed(e).delivery(buf) !is Invoke,
        closed(e).pump_step() !is Invoke,
{
}

/// The pump of a closed subscription ends after at most one frame, so that
/// joining it returns.
pub proof fn law_closed_pump_ends(e: SubEntry)
    requires
        e.pump is Some,
        !e.running,
    ensures
        closed(e).pump_step() is Exit || closed(e).pumped().pump_step() is Exit,
        closed(e).pump_step() is Exit ==> closed(e).pumped().waits_for() is Done,
        closed(e).pumped().pump_step() is Exit ==> closed(e).pumped().pumped().waits_for() is Done,
{
}

/// A full teardown that says `Done` leaves nothing that could call anyone:
/// no stream, no subscription, no capture.
pub proof fn law_destroy_is_full_teardown(s: State)
    requires
        s.wf(),
        s.destroying() is Done,
    ensures
        s.destroyed().quiet(),
        forall|id: u64| #[trigger] s.destroyed().pump_step(id) is Exit,
        forall|id: u64| !#[trigger] s.destroyed().waiting(id),
        forall|id: u64| !#[trigger] s.destroyed().job_waiting(id),
        forall|post: State, out: ProducerStep, fresh: u64| #[trigger]
            produces(s.destroyed(), post, out, fresh) ==> out is Idle,
{
}

/// Whether `ev` calls a callback: of a subscription, or of a capture.
pub open spec fn calls_back(pre: State, ev: Event) -> bool {
    match ev {
        Event::Pump { id } => pre.pump_step(id) is Invoke,
        Event::Produce { out, .. } => out matches ProducerStep::Delivered { what, .. } && what
            is Invoke,
        Event::Fire { .. } => true,
        Event::FireJob { .. } => true,
        _ => false,
    }
}

/// Whether `ev` registers a callback.
pub open spec fn registers(ev: Event) -> bool {
    ev is Subscribe || ev is Capture || ev is StartJob
}

/// Nobody is registered and nobody is due a frame.
pub open spec fn is_silent(s: State) -> bool {
    &&& s.subs.len() == 0
    &&& s.captures.len() == 0
    &&& s.jobs.len() == 0
    &&& s.pending.len() == 0
}

/// Without a new registration, a silent producer stays silent.
proof fn lemma_stays_silent(pre: State, ev: Event, post: State)
    requires
        is_silent(pre),
        happens(pre, ev, post),
        !registers(ev),
    ensures
        is_silent(post),
        !calls_back(pre, ev),
{
}

/// Along a run without a new registration, a silent producer stays silent.
proof fn lemma_run_stays_silent(states: Seq<State>, events: Seq<Event>, k: int)
    requires
        is_run(states, events),
        is_silent(states[0]),
        forall|i: int| 0 <= i < events.len() ==> !registers(#[trigger] events[i]),
        0 <= k < states.len(),
    ensures
        is_silent(states[k]),
    decreases k,
{
    if k > 0 {
        lemma_run_stays_silent(states, events, k - 1);
        assert(happens(states[k - 1], events[k - 1], states[k - 1 + 1]));
        lemma_stays_silent(states[k - 1], events[k - 1], states[k]);
    }
}

/// Along a run, a capture that has no call to come has none to come later.
proof fn lemma_run_stays_fired(states: Seq<State>, events: Seq<Event>, id: u64, k: int)
    requires
        is_run(states, events),
        id <= states[0].next_sub,
        !states[0].waiting(id),
        0 <= k < states.len(),
    ensures
        id <= states[k].next_sub,
        !states[k].waiting(id),
    decreases k,
{
    if k > 0 {
        lemma_run_stays_fired(states, events, id, k - 1);
        lemma_run_wf(states, events, k - 1);
        assert(happens(states[k - 1], events[k - 1], states[k - 1 + 1]));
        lemma_fire_step(states[k - 1], events[k - 1], states[k], id);
    }
}

/// Along a run, a job that has no call to come has none to come later.
proof fn lemma_run_stays_done(states: Seq<State>, events: Seq<Event>, id: u64, k: int)
    requires
        is_run(states, events),
        id <= states[0].next_job,
        !states[0].job_waiting(id),
        0 <= k < states.len(),
    ensures
        id <= states[k].next_job,
        !states[k].job_waiting(id),
    decreases k,
{
    if k > 0 {
        lemma_run_stays_done(states, events, id, k - 1);
        lemma_run_wf(states, events, k - 1);
        assert(happens(states[k - 1], events[k - 1], states[k - 1 + 1]));
        lemma_job_step(states[k - 1], events[k - 1], states[k], id);
    }
}

/// Once a teardown of the whole producer has answered `Done`, no callback
/// that was registered with it is in flight or will be called, whatever is
/// done from then on: not of a subscription, not of a capture of either sort.
/// And while nothing new is registered, no callback is called at all.
pub proof fn law_nothing_is_called_after_destroy(
    pre: State,
    states: Seq<State>,
    events: Seq<Event>,
)
    requires
        pre.wf(),
        pre.destroying() is Done,
        states[0] == pre.destroyed(),
        is_run(states, events),
    ensures
        states[0].next_sub == pre.next_sub,
        states[0].next_job == pre.next_job,
        states[0].quiet(),
        forall|k: int, id: u64|
            0 <= k < events.len() && id <= pre.next_sub ==> !(#[trigger] begins_call(
                states[k],
                events[k],
                id,
            )),
        forall|k: int, id: u64|
            0 <= k < events.len() && id <= pre.next_sub ==> !(#[trigger] fires(events[k], id)),
        forall|k: int, id: u64|
            0 <= k < events.len() && id <= pre.next_job ==> !(#[trigger] fires_job(events[k], id)),
        (forall|i: int| 0 <= i < events.len() ==> !registers(#[trigger] events[i])) ==> forall|
            k: int,
        |
            0 <= k < events.len() ==> !calls_back(states[k], #[trigger] events[k]),
{
    let s = states[0];
    assert(is_silent(s));
    assert forall|k: int, id: u64| 0 <= k < events.len() && id <= pre.next_sub implies !(
    #[trigger] begins_call(states[k], events[k], id)) by {
        assert(is_gone(s, id));
        lemma_run_stays_gone(states, events, id, k);
        lemma_run_wf(states, events, k);
        assert(happens(states[k], events[k], states[k + 1]));
    }
    assert forall|k: int, id: u64| 0 <= k < events.len() && id <= pre.next_sub implies !(
    #[trigger] fires(events[k], id)) by {
        lemma_run_stays_fired(states, events, id, k);
        assert(happens(states[k], events[k], states[k + 1]));
    }
    assert forall|k: int, id: u64| 0 <= k < events.len() && id <= pre.next_job implies !(
    #[trigger] fires_job(events[k], id)) by {
        lemma_run_stays_done(states, events, id, k);
        assert(happens(states[k], events[k], states[k + 1]));
    }
    if forall|i: int| 0 <= i < events.len() ==> !registers(#[trigger] events[i]) {
        assert forall|k: int| 0 <= k < events.len() implies !calls_back(
            states[k],
            #[trigger] events[k],
        ) by {
            lemma_run_stays_silent(states, events, k);
            assert(happens(states[k], events[k], states[k + 1]));
            lemma_stays_silent(states[k], events[k], states[k + 1]);
        }
    }
}

/// New identifiers are new: nothing that exists has it.
pub proof fn law_identifiers_are_fresh(s: State)
    requires
        s.wf(),
        s.next_sub < u64::MAX,
    ensures
        index_of(s.subs, (s.next_sub + 1) as u64) < 0,
        capture_index(s.captures, (s.next_sub + 1) as u64) < 0,
{
    lemma_index_of(s.subs, (s.next_sub + 1) as u64);
    lemma_capture_index(s.captures, (s.next_sub + 1) as u64);
}

/// A new subscription gets the number after the last that was given out,
/// which is never zero and belongs to no subscription and no capture that can
/// be cancelled; those that are there stay as they are.
pub proof fn law_subscribing_keeps_the_others(pre: State, cb: SubCb, policy: u32)
    requires
        pre.wf(),
        pre.next_sub < u64::MAX,
    ensures
        ({
            let post = pre.subscribed(cb, policy);
            let id = (pre.next_sub + 1) as u64;
            &&& post.next_sub == id
            &&& id >= 1
            &&& post.subs.len() == pre.subs.len() + 1
            &&& post.subs.last() == new_sub(id, cb, policy)
            &&& forall|i: int|
                0 <= i < pre.subs.len() ==> #[trigger] post.subs[i] == pre.subs[i]
                    && pre.subs[i].id != id
            &&& post.captures == pre.captures
            &&& forall|i: int|
                0 <= i < pre.captures.len() ==> (#[trigger] pre.captures[i]).id != id
        }),
{
    let id = (pre.next_sub + 1) as u64;
    assert forall|i: int| 0 <= i < pre.subs.len() implies #[trigger] pre.subscribed(
        cb,
        policy,
    ).subs[i] == pre.subs[i] && pre.subs[i].id != id by {
        assert(pre.subs[i].id <= pre.next_sub);
    }
}

/// The identifier that `ev` gives out, if any.
pub open spec fn given_out(pre: State, ev: Event) -> Option<u64> {
    match ev {
        Event::Subscribe { .. } => Some((pre.next_sub + 1) as u64),
        Event::Capture { .. } => Some((pre.next_sub + 1) as u64),
        _ => None,
    }
}

/// The identifiers that the first `n` events give out, in order.
pub open spec fn all_given_out(states: Seq<State>, events: Seq<Event>, n: nat) -> Seq<u64>
    decreases n,
{
    if n == 0 {
        Seq::empty()
    } else {
        let before = all_given_out(states, events, (n - 1) as nat);
        match given_out(states[n - 1], events[n - 1]) {
            Some(id) => before.push(id),
            None => before,
        }
    }
}

/// Over the first `n` events, identifiers count up.
proof fn lemma_given_out(states: Seq<State>, events: Seq<Event>, n: nat)
    requires
        is_run(states, events),
        n <= events.len(),
    ensures
        ({
            let ids = all_given_out(states, events, n);
            &&& states[n as int].next_sub == states[0].next_sub + ids.len()
            &&& forall|i: int|
                0 <= i < ids.len() ==> #[trigger] ids[i] == states[0].next_sub + i + 1
        }),
    decreases n,
{
    if n > 0 {
        let m = (n - 1) as nat;
        lemma_given_out(states, events, m);
        assert(happens(states[m as int], events[m as int], states[m as int + 1]));
    }
}

/// Subscriptions and captures that can be cancelled share one numbering, and
/// no number is used twice over the life of a producer, whatever was removed
/// or finished in between: the identifiers that a run gives out count up by
/// one, from the last one before it. A new producer's first is one.
pub proof fn law_identifiers_are_never_reused(states: Seq<State>, events: Seq<Event>)
    requires
        is_run(states, events),
    ensures
        ({
            let ids = all_given_out(states, events, events.len());
            &&& ids.no_duplicates()
            &&& forall|i: int|
                0 <= i < ids.len() ==> #[trigger] ids[i] == states[0].next_sub + i + 1
            &&& states.last().next_sub == states[0].next_sub + ids.len()
            &&& states[0].next_sub == 0 ==> forall|i: int|
                0 <= i < ids.len() ==> #[trigger] ids[i] == i + 1
        }),
{
    lemma_given_out(states, events, events.len());
}

/// A policy other than the mailbox policy is taken as blocking: the
/// subscription gets its frames on the producer's thread and misses none.
pub proof fn law_unknown_policy_is_blocking(id: u64, cb: SubCb, policy: u32, buf: u64)
    requires
        policy != crate::abi::A_DELIVERY_LATEST,
    ensures
        new_sub(id, cb, policy) == new_sub(id, cb, crate::abi::A_DELIVERY_BLOCKING),
        new_sub(id, cb, policy).delivery(buf) is Invoke,
{
}

/// The producer never waits for a subscription with a mailbox.
pub proof fn law_mailbox_never_blocks(e: SubEntry, buf: u64)
    requires
        e.pump is Some,
    ensures
        e.delivery(buf) is Handed,
        e.delivered(buf).running == e.running,
{
}

/// No subscription `id` with a mailbox exists or will exist.
pub open spec fn without_mailbox(s: State, id: u64) -> bool {
    &&& id <= s.next_sub
    &&& forall|i: int|
        0 <= i < s.subs.len() && (#[trigger] s.subs[i]).id == id ==> s.subs[i].pump is None
}

/// Tearing down subscriptions gives none a mailbox.
proof fn lemma_closing_without_mailbox(s: Seq<SubEntry>, id: u64)
    requires
        forall|i: int|
            0 <= i < s.len() && (#[trigger] s[i]).id == id ==> s[i].pump is None,
    ensures
        forall|i: int|
            0 <= i < closing(s).0.len() && (#[trigger] closing(s).0[i]).id == id ==> closing(
                s,
            ).0[i].pump is None,
    decreases s.len(),
{
    if s.len() > 0 && closed(s[0]).waits_for() is Done {
        let t = s.drop_first();
        assert forall|i: int| 0 <= i < t.len() && (#[trigger] t[i]).id == id implies t[i].pump
            is None by {
            assert(t[i] == s[i + 1]);
        }
        lemma_closing_without_mailbox(t, id);
    }
}

/// A subscription never changes its policy.
proof fn lemma_stays_without_mailbox(pre: State, ev: Event, post: State, id: u64)
    requires
        pre.wf(),
        happens(pre, ev, post),
        without_mailbox(pre, id),
    ensures
        without_mailbox(post, id),
{
    match ev {
        Event::Unsubscribe { id: j } => {
            lemma_index_of(pre.subs, j);
            let i = index_of(pre.subs, j);
            if i >= 0 && closed(pre.subs[i]).waits_for() is Done {
                assert forall|k: int|
                    0 <= k < post.subs.len() && (#[trigger] post.subs[k]).id == id implies
                    post.subs[k].pump is None by {
                    assert(post.subs[k] == pre.subs[if k < i { k } else { k + 1 }]);
                }
            }
        },
        Event::Return { id: j } => {
            lemma_index_of(pre.subs, j);
        },
        Event::Pump { id: j } => {
            lemma_index_of(pre.subs, j);
        },
        Event::Produce { out, fresh } => {
            if pre.pending.len() > 0 {
                lemma_index_of(pre.subs, pre.pending[0]);
            }
        },
        Event::Destroy => {
            lemma_closing_without_mailbox(pre.subs, id);
        },
        _ => {},
    }
}

/// Along a run, a subscription never changes its policy.
proof fn lemma_run_without_mailbox(states: Seq<State>, events: Seq<Event>, id: u64, k: int)
    requires
        is_run(states, events),
        without_mailbox(states[0], id),
        0 <= k < states.len(),
    ensures
        without_mailbox(states[k], id),
    decreases k,
{
    if k > 0 {
        lemma_run_without_mailbox(states, events, id, k - 1);
        lemma_run_wf(states, events, k - 1);
        assert(happens(states[k - 1], events[k - 1], states[k - 1 + 1]));
        lemma_stays_without_mailbox(states[k - 1], events[k - 1], states[k], id);
    }
}

/// A new subscription with a policy other than the mailbox policy.
proof fn lemma_new_blocking(pre: State, cb: SubCb, policy: u32)
    requires
        pre.wf(),
        pre.next_sub < u64::MAX,
        policy != crate::abi::A_DELIVERY_LATEST,
    ensures
        without_mailbox(pre.subscribed(cb, policy), (pre.next_sub + 1) as u64),
        is_blocking(pre.subscribed(cb, policy), (pre.next_sub + 1) as u64),
        !pre.subscribed(cb, policy).pending.contains((pre.next_sub + 1) as u64),
{
    let s = pre.subscribed(cb, policy);
    let id = (pre.next_sub + 1) as u64;
    assert(s.subs.last().id == id);
    assert forall|i: int| 0 <= i < s.subs.len() && (#[trigger] s.subs[i]).id == id implies
        s.subs[i].pump is None by {
        if i < pre.subs.len() {
            assert(pre.subs[i].id <= pre.next_sub);
        }
    }
}

/// A subscription whose policy is not the mailbox policy, a known one or not,
/// never counts a missed frame, whatever is done from then on.
pub proof fn law_blocking_drops_nothing(
    pre: State,
    cb: SubCb,
    policy: u32,
    states: Seq<State>,
    events: Seq<Event>,
)
    requires
        pre.wf(),
        pre.next_sub < u64::MAX,
        policy != crate::abi::A_DELIVERY_LATEST,
        states[0] == pre.subscribed(cb, policy),
        is_run(states, events),
    ensures
        forall|k: int|
            0 <= k < states.len() ==> (#[trigger] states[k]).dropped((pre.next_sub + 1) as u64)
                == 0,
{
    let id = (pre.next_sub + 1) as u64;
    lemma_new_blocking(pre, cb, policy);
    assert forall|k: int| 0 <= k < states.len() implies (#[trigger] states[k]).dropped(id) == 0 by {
        lemma_run_without_mailbox(states, events, id, k);
        lemma_index_of(states[k].subs, id);
    }
}

/// Whether subscription `id` exists, gets new frames, and is called on the
/// producer's thread.
pub open spec fn is_blocking(s: State, id: u64) -> bool {
    &&& is_listed(s.subs, id)
    &&& s.subs[index_of(s.subs, id)].pump is None
}

/// The indices of the frames that subscription `id` was called with, in
/// order, over the first `n` events.
pub open spec fn received(states: Seq<State>, events: Seq<Event>, id: u64, n: nat) -> Seq<u32>
    decreases n,
{
    if n == 0 {
        Seq::empty()
    } else {
        let before = received(states, events, id, (n - 1) as nat);
        if begins_call(states[n - 1], events[n - 1], id) {
            before.push(states[n - 1].stream->Some_0.next)
        } else {
            before
        }
    }
}

/// The numbers from `a` to below `b`.
pub open spec fn between(a: nat, b: nat) -> Seq<u32> {
    Seq::new((b - a) as nat, |i: int| (a + i) as u32)
}

/// How many frames of the stream are behind a blocking subscription: all
/// before the one in hand, and that one if it is no longer due.
pub open spec fn had(s: State, id: u64) -> nat {
    match s.stream {
        Some(p) => if p.frame is Some && !s.pending.contains(id) {
            p.next as nat + 1
        } else {
            p.next as nat
        },
        None => 0,
    }
}

/// A run of one stream: it is there throughout, and none is started.
pub open spec fn one_stream(states: Seq<State>, events: Seq<Event>) -> bool {
    &&& forall|k: int| 0 <= k < states.len() ==> (#[trigger] states[k]).stream is Some
    &&& forall|k: int| 0 <= k < events.len() ==> !(#[trigger] events[k] is Stream)
}

/// Whether subscription `id` exists and gets new frames throughout.
pub open spec fn stays_subscribed(states: Seq<State>, id: u64) -> bool {
    forall|k: int| 0 <= k < states.len() ==> is_listed((#[trigger] states[k]).subs, id)
}

/// Handing a frame on keeps the order in which the others get it.
pub(crate) proof fn lemma_drop_first_contains(s: Seq<u64>, id: u64)
    requires
        s.len() > 0,
        s.no_duplicates(),
    ensures
        s.drop_first().contains(id) <==> s.contains(id) && id != s[0],
{
    let t = s.drop_first();
    if t.contains(id) {
        let k = choose|k: int| 0 <= k < t.len() && t[k] == id;
        assert(s[k + 1] == id);
    }
    if s.contains(id) && id != s[0] {
        let k = choose|k: int| 0 <= k < s.len() && s[k] == id;
        assert(t[k - 1] == id);
    }
}

/// One event's effect on a stream that it neither starts nor ends.
pub(crate) proof fn lemma_stream_step(pre: State, ev: Event, post: State)
    requires
        happens(pre, ev, post),
        pre.stream is Some,
        post.stream is Some,
        !(ev is Stream),
    ensures
        post.stream->Some_0.count == pre.stream->Some_0.count,
        post.stream->Some_0.kind == pre.stream->Some_0.kind,
{
}

/// One event's effect on what a blocking subscription has had.
proof fn lemma_received_step(pre: State, ev: Event, post: State, id: u64)
    requires
        pre.wf(),
        post.wf(),
        happens(pre, ev, post),
        pre.stream is Some,
        post.stream is Some,
        !(ev is Stream),
        is_blocking(pre, id),
        is_blocking(post, id),
    ensures
        if begins_call(pre, ev, id) {
            ev is Produce && had(post, id) == had(pre, id) + 1 && pre.stream->Some_0.next == had(
                pre,
                id,
            )
        } else {
            had(post, id) == had(pre, id)
        },
{
    lemma_index_of(pre.subs, id);
    let i = index_of(pre.subs, id);
    assert(pre.subs[i].wf());
    match ev {
        Event::Produce { out, fresh } => {
            let p = pre.stream->Some_0;
            if p.calling is None && p.frame is None && p.next != p.count {
                lemma_listed_ids(pre.subs);
                assert(listed_ids(pre.subs).contains(id));
            } else if p.calling is None && p.frame is Some && pre.pending.len() > 0 {
                lemma_drop_first_contains(pre.pending, id);
                assert(pre.pending.contains(pre.pending[0]));
            }
        },
        _ => {},
    }
}

/// Along a run, a subscription that stays subscribed stays blocking.
pub(crate) proof fn lemma_stays_blocking(states: Seq<State>, events: Seq<Event>, id: u64, k: int)
    requires
        is_run(states, events),
        is_blocking(states[0], id),
        stays_subscribed(states, id),
        0 <= k < states.len(),
    ensures
        is_blocking(states[k], id),
{
    lemma_index_of(states[0].subs, id);
    assert(states[0].subs[index_of(states[0].subs, id)].wf());
    assert forall|i: int| 0 <= i < states[0].subs.len() && (#[trigger] states[0].subs[i]).id
        == id implies states[0].subs[i].pump is None by {
        assert(i == index_of(states[0].subs, id));
    }
    lemma_run_without_mailbox(states, events, id, k);
    assert(is_listed(states[k].subs, id));
    lemma_index_of(states[k].subs, id);
}

/// Along a run of one stream, what a blocking subscription is called with are
/// the frames in order.
pub(crate) proof fn lemma_received(states: Seq<State>, events: Seq<Event>, id: u64, n: nat)
    requires
        is_run(states, events),
        one_stream(states, events),
        is_blocking(states[0], id),
        stays_subscribed(states, id),
        n <= events.len(),
    ensures
        states[n as int].stream->Some_0.count == states[0].stream->Some_0.count,
        states[n as int].stream->Some_0.kind == states[0].stream->Some_0.kind,
        had(states[0], id) <= had(states[n as int], id),
        received(states, events, id, n) == between(had(states[0], id), had(states[n as int], id)),
    decreases n,
{
    if n == 0 {
        assert(between(had(states[0], id), had(states[0], id)) =~= Seq::<u32>::empty());
    } else {
        let m = (n - 1) as nat;
        lemma_received(states, events, id, m);
        let pre = states[m as int];
        let post = states[n as int];
        assert(happens(pre, events[m as int], states[m as int + 1]));
        assert(!(events[m as int] is Stream));
        lemma_stays_blocking(states, events, id, m as int);
        lemma_stays_blocking(states, events, id, n as int);
        lemma_run_wf(states, events, m as int);
        lemma_run_wf(states, events, n as int);
        lemma_stream_step(pre, events[m as int], post);
        lemma_received_step(pre, events[m as int], post, id);
        if begins_call(pre, events[m as int], id) {
            assert(between(had(states[0], id), had(pre, id)).push(pre.stream->Some_0.next)
                =~= between(had(states[0], id), had(post, id)));
        }
    }
}

/// Blocking delivery is lossless and in order: while a subscription is there
/// and a stream runs, it is called once with each frame that comes to it,
/// whatever else goes on. Over the end of the stream it has had them all.
pub proof fn law_blocking_delivery_is_lossless(states: Seq<State>, events: Seq<Event>, id: u64)
    requires
        is_run(states, events),
        one_stream(states, events),
        is_blocking(states[0], id),
        stays_subscribed(states, id),
    ensures
        received(states, events, id, events.len()) == between(
            had(states[0], id),
            had(states.last(), id),
        ),
        states.last().stream->Some_0.finished() ==> had(states.last(), id)
            == states[0].stream->Some_0.count,
{
    lemma_received(states, events, id, events.len());
}

/// The first frame that a subscription gets which is made now: the one after
/// the frame in hand, or the next one where none is in hand.
pub open spec fn first_due(s: State) -> nat {
    match s.stream {
        Some(p) => if p.frame is Some {
            p.next as nat + 1
        } else {
            p.next as nat
        },
        None => 0,
    }
}

/// A subscription that is made while a stream runs, with a policy other than
/// the mailbox policy, is called with every frame that is made from then on,
/// once and in order, to the last.
pub proof fn law_later_subscriber_misses_nothing(
    pre: State,
    cb: SubCb,
    policy: u32,
    states: Seq<State>,
    events: Seq<Event>,
)
    requires
        pre.wf(),
        pre.next_sub < u64::MAX,
        policy != crate::abi::A_DELIVERY_LATEST,
        states[0] == pre.subscribed(cb, policy),
        is_run(states, events),
        one_stream(states, events),
        stays_subscribed(states, (pre.next_sub + 1) as u64),
        states.last().stream->Some_0.finished(),
    ensures
        received(states, events, (pre.next_sub + 1) as u64, events.len()) == between(
            first_due(pre),
            pre.stream->Some_0.count as nat,
        ),
{
    let id = (pre.next_sub + 1) as u64;
    lemma_new_blocking(pre, cb, policy);
    lemma_received(states, events, id, events.len());
}

/// Whether subscription `id` exists with a mailbox and is not being torn
/// down.
pub open spec fn has_mailbox(s: State, id: u64) -> bool {
    let i = index_of(s.subs, id);
    i >= 0 && s.subs[i].active && s.subs[i].pump is Some
}

/// The mailbox of subscription `id`.
pub open spec fn mailbox_of(s: State, id: u64) -> Pump {
    s.subs[index_of(s.subs, id)].pump->Some_0
}

/// Whether `ev` puts a frame into the mailbox of `id`.
pub open spec fn hands(ev: Event, id: u64) -> bool {
    ev matches Event::Produce { out, .. } && out == (ProducerStep::Delivered {
        id,
        what: Delivery::Handed,
    })
}

/// How many frames the first `n` events put into the mailbox of `id`.
pub open spec fn times_handed(events: Seq<Event>, id: u64, n: nat) -> nat
    decreases n,
{
    if n == 0 {
        0
    } else {
        times_handed(events, id, (n - 1) as nat) + if hands(events[n - 1], id) {
            1nat
        } else {
            0
        }
    }
}

/// How many calls for `id` the first `n` events begin.
pub open spec fn times_called(states: Seq<State>, events: Seq<Event>, id: u64, n: nat) -> nat
    decreases n,
{
    if n == 0 {
        0
    } else {
        times_called(states, events, id, (n - 1) as nat) + if begins_call(
            states[n - 1],
            events[n - 1],
            id,
        ) {
            1nat
        } else {
            0
        }
    }
}

/// What tearing down subscriptions leaves of one of them.
pub(crate) proof fn lemma_closing_entry(s: Seq<SubEntry>, id: u64)
    requires
        distinct_subs(s),
        index_of(closing(s).0, id) >= 0,
    ensures
        index_of(s, id) >= 0,
        ({
            let e = closing(s).0[index_of(closing(s).0, id)];
            e == s[index_of(s, id)] || e == closed(s[index_of(s, id)])
        }),
    decreases s.len(),
{
    if s.len() > 0 {
        lemma_index_of(s, id);
        if closed(s[0]).waits_for() is Done {
            let t = s.drop_first();
            assert forall|i: int, j: int| 0 <= i < j < t.len() implies (#[trigger] t[i]).id != (
            #[trigger] t[j]).id by {
                assert(s[i + 1].id != s[j + 1].id);
            }
            lemma_closing_entry(t, id);
            lemma_index_of(t, id);
            assert(s[index_of(t, id) + 1] == t[index_of(t, id)]);
        } else {
            lemma_index_update(s, 0, closed(s[0]), id);
        }
    }
}

/// One event's effect on the mailbox of a subscription.
proof fn lemma_mailbox_step(pre: State, ev: Event, post: State, id: u64)
    requires
        pre.wf(),
        post.wf(),
        happens(pre, ev, post),
        has_mailbox(pre, id),
        has_mailbox(post, id),
    ensures
        ({
            let p = mailbox_of(pre, id);
            let q = mailbox_of(post, id);
            if hands(ev, id) {
                &&& !begins_call(pre, ev, id)
                &&& q.slot is Some
                &&& q.dropped == if p.slot is Some {
                    p.dropped.wrapping_add(1)
                } else {
                    p.dropped
                }
            } else if begins_call(pre, ev, id) {
                &&& p.slot is Some
                &&& q.slot is None
                &&& q.dropped == p.dropped
            } else {
                &&& q.slot == p.slot
                &&& q.dropped == p.dropped
            }
        }),
{
    lemma_index_of(pre.subs, id);
    lemma_index_of(post.subs, id);
    let i = index_of(pre.subs, id);
    let k = index_of(post.subs, id);
    assert(pre.subs[i].wf());
    match ev {
        Event::Subscribe { cb, policy } => {
            assert(post.subs[i] == pre.subs[i]);
        },
        Event::Unsubscribe { id: j } => {
            lemma_index_of(pre.subs, j);
            let m = index_of(pre.subs, j);
            if m >= 0 {
                if closed(pre.subs[m]).waits_for() is Done {
                    let b = if k < m { k } else { k + 1 };
                    assert(post.subs[k] == pre.subs[b]);
                } else {
                    lemma_index_update(pre.subs, m, closed(pre.subs[m]), id);
                }
            }
        },
        Event::Return { id: j } => {
            lemma_index_of(pre.subs, j);
            let m = index_of(pre.subs, j);
            lemma_index_update(pre.subs, m, pre.subs[m].finished(), id);
        },
        Event::Pump { id: j } => {
            lemma_index_of(pre.subs, j);
            let m = index_of(pre.subs, j);
            if m >= 0 {
                lemma_index_update(pre.subs, m, pre.subs[m].pumped(), id);
            }
        },
        Event::Produce { out, fresh } => {
            if pre.pending.len() > 0 && pre.emitting() is Some {
                let j = pre.pending[0];
                lemma_index_of(pre.subs, j);
                let m = index_of(pre.subs, j);
                if m >= 0 {
                    lemma_index_update(
                        pre.subs,
                        m,
                        pre.subs[m].delivered(pre.emitting()->Some_0.buf),
                        id,
                    );
                }
            }
        },
        Event::Destroy => {
            if post.subs == closing(pre.subs).0 {
                lemma_closing_entry(pre.subs, id);
            }
        },
        _ => {},
    }
}

/// Along a run, a mailbox accounts for every frame.
proof fn lemma_mailbox_run(states: Seq<State>, events: Seq<Event>, id: u64, n: nat)
    requires
        is_run(states, events),
        forall|k: int| 0 <= k < states.len() ==> has_mailbox(#[trigger] states[k], id),
        mailbox_of(states[0], id).slot is None,
        mailbox_of(states[0], id).dropped == 0,
        events.len() <= u64::MAX,
        n <= events.len(),
    ensures
        mailbox_of(states[n as int], id).dropped + times_called(states, events, id, n) + (
        if mailbox_of(states[n as int], id).slot is Some {
            1int
        } else {
            0
        }) == times_handed(events, id, n),
        times_handed(events, id, n) <= n,
    decreases n,
{
    if n > 0 {
        let m = (n - 1) as nat;
        lemma_mailbox_run(states, events, id, m);
        lemma_run_wf(states, events, m as int);
        lemma_run_wf(states, events, n as int);
        assert(happens(states[m as int], events[m as int], states[m as int + 1]));
        assert(has_mailbox(states[m as int], id) && has_mailbox(states[n as int], id));
        lemma_mailbox_step(states[m as int], events[m as int], states[n as int], id);
    }
}

/// A subscriber with a mailbox that cannot keep up misses frames, and every
/// one that it misses is counted: whatever else goes on, each frame that was
/// put into its mailbox has led to a call, or was counted as dropped, or
/// still waits there. What it has seen and what it has missed are never more
/// than what was produced for it.
pub proof fn law_mailbox_misses_are_counted(states: Seq<State>, events: Seq<Event>, id: u64)
    requires
        is_run(states, events),
        forall|k: int| 0 <= k < states.len() ==> has_mailbox(#[trigger] states[k], id),
        mailbox_of(states[0], id).slot is None,
        mailbox_of(states[0], id).dropped == 0,
        events.len() <= u64::MAX,
    ensures
        mailbox_of(states.last(), id).dropped + times_called(states, events, id, events.len()) + (
        if mailbox_of(states.last(), id).slot is Some {
            1int
        } else {
            0
        }) == times_handed(events, id, events.len()),
{
    lemma_mailbox_run(states, events, id, events.len());
}

/// Whether `ev` calls the callback of capture `id`.
pub open spec fn fires(ev: Event, id: u64) -> bool {
    ev matches Event::Fire { id: i, .. } && i == id
}

/// How often the callback of capture `id` was called in the first `n`
/// events.
pub open spec fn times_fired(events: Seq<Event>, id: u64, n: nat) -> nat
    decreases n,
{
    if n == 0 {
        0
    } else {
        times_fired(events, id, (n - 1) as nat) + if fires(events[n - 1], id) {
            1nat
        } else {
            0
        }
    }
}

/// One event's effect on whether a capture has yet to call its callback.
proof fn lemma_fire_step(pre: State, ev: Event, post: State, id: u64)
    requires
        pre.wf(),
        happens(pre, ev, post),
        id <= pre.next_sub,
    ensures
        id <= post.next_sub,
        fires(ev, id) ==> pre.waiting(id) && !post.waiting(id),
        !fires(ev, id) ==> post.waiting(id) == pre.waiting(id),
{
    lemma_capture_index(pre.captures, id);
    lemma_capture_index(post.captures, id);
    match ev {
        Event::Capture { .. } => {
            assert(post.captures.drop_last() =~= pre.captures);
        },
        Event::Fire { id: j, .. } => {
            lemma_capture_index(pre.captures, j);
            let i = capture_index(pre.captures, j);
            lemma_same_captures(pre.captures, i, post.captures[i], id);
        },
        Event::Cancel { id: j } => {
            lemma_capture_index(pre.captures, j);
            let i = capture_index(pre.captures, j);
            lemma_same_captures(pre.captures, i, post.captures[i], id);
        },
        Event::FinishCapture { id: j } => {
            lemma_capture_index(pre.captures, j);
            let i = capture_index(pre.captures, j);
            let k = capture_index(pre.captures, id);
            let l = capture_index(post.captures, id);
            if l >= 0 {
                let m = if l < i { l } else { l + 1 };
                assert(pre.captures[m] == post.captures[l]);
                assert(m == k);
            }
            if k >= 0 && k != i {
                let m = if k < i { k } else { k - 1 };
                assert(post.captures[m] == pre.captures[k]);
            }
        },
        Event::Destroy => {
            if pre.captures.len() > 0 {
                lemma_same_captures(pre.captures, 0, cancelled(pre.captures[0]), id);
            }
        },
        _ => {},
    }
}

/// Changing a capture, but not its identifier, keeps every position.
proof fn lemma_same_captures(s: Seq<CaptureEntry>, i: int, c: CaptureEntry, id: u64)
    requires
        0 <= i < s.len(),
        c.id == s[i].id,
    ensures
        capture_index(s.update(i, c), id) == capture_index(s, id),
    decreases s.len(),
{
    let t = s.update(i, c);
    if i == s.len() - 1 {
        assert(t.drop_last() =~= s.drop_last());
    } else {
        assert(t.drop_last() =~= s.drop_last().update(i, c));
        if s.last().id != id {
            lemma_same_captures(s.drop_last(), i, c, id);
        }
    }
}

/// Along a run, a capture has called its callback once, or has yet to.
proof fn lemma_times_fired(states: Seq<State>, events: Seq<Event>, id: u64, n: nat)
    requires
        is_run(states, events),
        id <= states[0].next_sub,
        states[0].waiting(id),
        n <= events.len(),
    ensures
        id <= states[n as int].next_sub,
        times_fired(events, id, n) == if states[n as int].waiting(id) {
            0nat
        } else {
            1
        },
    decreases n,
{
    if n > 0 {
        let m = (n - 1) as nat;
        lemma_times_fired(states, events, id, m);
        assert(happens(states[m as int], events[m as int], states[m as int + 1]));
        lemma_run_wf(states, events, m as int);
        lemma_fire_step(states[m as int], events[m as int], states[n as int], id);
    }
}

/// A capture calls its callback exactly once: whatever is done, and however
/// it is cancelled, once it is no longer in flight its callback was called
/// one time, and never more than that before.
pub proof fn law_capture_fires_exactly_once(states: Seq<State>, events: Seq<Event>, id: u64)
    requires
        is_run(states, events),
        id <= states[0].next_sub,
        states[0].waiting(id),
    ensures
        times_fired(events, id, events.len()) <= 1,
        capture_index(states.last().captures, id) < 0 ==> times_fired(events, id, events.len())
            == 1,
{
    lemma_times_fired(states, events, id, events.len());
}

/// Cancelling a capture takes nothing away: its callback is still owed its
/// one call, which will then come without a frame.
pub proof fn law_cancelled_capture_still_fires(pre: State, id: u64)
    requires
        pre.wf(),
        capture_index(pre.captures, id) >= 0,
        pre.capture(id).listed,
        pre.waiting(id),
    ensures
        pre.with_capture(id, cancelled(pre.capture(id))).waiting(id),
        pre.with_capture(id, cancelled(pre.capture(id))).capture(id).cancelled,
{
    lemma_capture_index(pre.captures, id);
    let i = capture_index(pre.captures, id);
    lemma_same_captures(pre.captures, i, cancelled(pre.captures[i]), id);
}

/// Whether `ev` calls the callback of job `id`.
pub open spec fn fires_job(ev: Event, id: u64) -> bool {
    ev matches Event::FireJob { id: i, .. } && i == id
}

/// How often the callback of job `id` was called in the first `n` events.
pub open spec fn times_fired_job(events: Seq<Event>, id: u64, n: nat) -> nat
    decreases n,
{
    if n == 0 {
        0
    } else {
        times_fired_job(events, id, (n - 1) as nat) + if fires_job(events[n - 1], id) {
            1nat
        } else {
            0
        }
    }
}

/// One event's effect on whether a job has yet to call its callback.
proof fn lemma_job_step(pre: State, ev: Event, post: State, id: u64)
    requires
        pre.wf(),
        happens(pre, ev, post),
        id <= pre.next_job,
    ensures
        id <= post.next_job,
        fires_job(ev, id) ==> pre.job_waiting(id) && !post.job_waiting(id),
        !fires_job(ev, id) ==> post.job_waiting(id) == pre.job_waiting(id),
{
    lemma_job_index(pre.jobs, id);
    match ev {
        Event::StartJob { .. } => {
            assert(post.jobs.drop_last() =~= pre.jobs);
        },
        Event::FireJob { id: j, .. } => {
            lemma_job_index(pre.jobs, j);
            lemma_job_fired(pre, j);
            assert(job_index(post.jobs, id) == job_index(pre.jobs, id));
        },
        Event::FinishJob { id: j } => {
            lemma_job_finished(pre, j);
            if j != id {
                assert(job_index(post.jobs, id) >= 0 <==> job_index(pre.jobs, id) >= 0);
            }
        },
        _ => {},
    }
}

/// Along a run, a job has called its callback once, or has yet to.
proof fn lemma_times_fired_job(states: Seq<State>, events: Seq<Event>, id: u64, n: nat)
    requires
        is_run(states, events),
        id <= states[0].next_job,
        states[0].job_waiting(id),
        n <= events.len(),
    ensures
        id <= states[n as int].next_job,
        times_fired_job(events, id, n) == if states[n as int].job_waiting(id) {
            0nat
        } else {
            1
        },
    decreases n,
{
    if n > 0 {
        let m = (n - 1) as nat;
        lemma_times_fired_job(states, events, id, m);
        assert(happens(states[m as int], events[m as int], states[m as int + 1]));
        lemma_run_wf(states, events, m as int);
        lemma_job_step(states[m as int], events[m as int], states[n as int], id);
    }
}

/// A capture that cannot be cancelled calls its callback exactly once,
/// whatever is done: once it is no longer in flight its callback was called
/// one time, and never more than that before.
pub proof fn law_job_fires_exactly_once(states: Seq<State>, events: Seq<Event>, id: u64)
    requires
        is_run(states, events),
        id <= states[0].next_job,
        states[0].job_waiting(id),
    ensures
        times_fired_job(events, id, events.len()) <= 1,
        job_index(states.last().jobs, id) < 0 ==> times_fired_job(events, id, events.len()) == 1,
{
    lemma_times_fired_job(states, events, id, events.len());
}

/// The library leaves no access open: making a frame, making a payload
/// writable, refilling, and dropping references each open and close in pairs.
pub proof fn law_accesses_are_balanced(
    h: Heap,
    p: u64,
    bufs: Seq<u64>,
    s: StorageView,
    seed: u8,
    kind: u32,
)
    ensures
        balanced(making_calls(h.supply, seed, kind)),
        balanced(detach_calls(h, p)),
        balanced(detach_calls(h, p) + bracket(detached(h, p), Access::Write, Seq::empty())),
        balanced(
            bracket(s, Access::Write, bracket(h.storage(p), Access::Read, Seq::empty())),
        ),
        balanced(freed_all(h, bufs)),
    decreases bufs.len(),
{
    let none = Seq::<PlatformCall>::empty();
    assert(balanced(none));
    law_bracket_balanced(made_storage(h.supply, seed, kind), Access::Write, none);
    law_duplicate_balanced(h.storage(p), h.supply);
    law_bracket_balanced(detached(h, p), Access::Write, none);
    law_balanced_calls_compose(
        detach_calls(h, p),
        bracket(detached(h, p), Access::Write, none),
        s,
    );
    law_bracket_balanced(h.storage(p), Access::Read, none);
    law_bracket_balanced(s, Access::Write, bracket(h.storage(p), Access::Read, none));
    if bufs.len() > 0 {
        law_accesses_are_balanced(h, p, bufs.drop_last(), s, seed, kind);
        let last = if h.count(bufs.last()) == occurrences(bufs, bufs.last()) {
            free_calls(h.storage(bufs.last()))
        } else {
            none
        };
        law_balanced_calls_compose(none, none, h.storage(bufs.last()));
        law_balanced_calls_compose(freed_all(h, bufs.drop_last()), last, s);
    }
}

} // verus!
