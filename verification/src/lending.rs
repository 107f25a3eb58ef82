//! What holds of frames and their bytes over any run of operations, whoever
//! else acts on the heap in between.

use vstd::prelude::*;
use crate::abi::A_STORAGE_HEAP;
use crate::capturing::captured;
use crate::frame::Frame;
use crate::heap::{
    both, effect, law_other_holders_unaffected, made_storage, nothing, one, pattern, transfer,
    Heap, Holding, FRAME_LEN,
};
use crate::laws::{
    begins_call, between, had, hands, happens, is_blocking, is_run, lemma_closing_entry,
    lemma_drop_first_contains, lemma_received, lemma_run_wf, lemma_stays_blocking,
    lemma_stream_step, one_stream, received, stays_subscribed, Event,
};
use crate::source::{
    distinct_subs, filled, frame_stored, index_of, lemma_covers, lemma_index_of,
    lemma_subs_member, producer_refs, stored, subs_refs, ProducerStep, State,
};
use crate::storage::StorageView;
use crate::streaming::{frame_seed, producer_effect};
use crate::sub::{frame_refs, pump_refs, Delivery, Invocation, PumpStep, SubEntry};
use crate::subscribe::{closed, lemma_index_update};
use crate::teardown::closing;

verus! {

/// The references that `ev` hands out.
pub open spec fn handed_out(pre: State, ev: Event) -> Holding {
    match ev {
        Event::Pump { id } => pump_refs(pre.pump_step(id)),
        Event::Produce { out, .. } => producer_refs(out),
        Event::Fire { frame, .. } => frame_refs(frame),
        Event::FireJob { with, .. } => one(with.buf),
        _ => nothing(),
    }
}

/// Whether others led from `h0` to `h1`, without touching what the producer
/// holds.
pub open spec fn others_step(h0: Heap, s: State, h1: Heap) -> bool {
    exists|m0: Holding, m1: Holding| #[trigger]
        transfer(h0, h1, m0, m1) && h0.covers(both(m0, s.held()))
}

/// What `ev` does to buffers and to the platform, beyond counting references.
pub open spec fn event_effect(h0: Heap, s0: State, ev: Event, h1: Heap, s1: State) -> bool {
    match ev {
        Event::Unsubscribe { id } => effect(h0, h1, s0.unsubscribe_calls(h0, id)),
        Event::Return { id } => effect(h0, h1, s0.return_calls(h0, id)),
        Event::Pump { id } => effect(h0, h1, s0.pump_calls(h0, id)),
        Event::Produce { out, fresh } => {
            &&& producer_effect(h0, h1, s0, out)
            &&& out matches ProducerStep::Produced { index } ==> {
                &&& h0.count(fresh) == 0
                &&& h1.count(fresh) == 1
                &&& h1.storage(fresh) == made_storage(
                    h0.supply,
                    frame_seed(index),
                    s0.stream->Some_0.kind,
                )
            }
        },
        Event::Fire { id, frame } => match frame {
            Some(f) => captured(h0, h1, f.buf, s0.capture(id).kind),
            None => h1 == h0,
        },
        Event::FireJob { id, with } => captured(h0, h1, with.buf, s0.job(id).kind),
        Event::Fill { seed } => filled(h0, h1, s0.payload, s1.payload, seed),
        Event::Store { kind } => stored(h0, h1, s0, s1, kind),
        Event::FrameStore { kind } => frame_stored(h0, h1, s0, s1, kind),
        Event::Destroy => effect(h0, h1, s0.destroy_calls(h0)),
        Event::Others => true,
        _ => h1 == h0,
    }
}

/// What `ev` does to the heap, as the operations' contracts state it.
pub open spec fn heap_happens(h0: Heap, s0: State, ev: Event, h1: Heap, s1: State) -> bool {
    &&& ev is Others ==> others_step(h0, s0, h1)
    &&& !(ev is Others) ==> transfer(h0, h1, s0.held(), both(s1.held(), handed_out(s0, ev)))
    &&& event_effect(h0, s0, ev, h1, s1)
}

/// Whether `states`, `heaps` and `events` are a run whose references are
/// counted.
pub open spec fn is_heap_run(states: Seq<State>, heaps: Seq<Heap>, events: Seq<Event>) -> bool {
    &&& is_run(states, events)
    &&& heaps.len() == states.len()
    &&& heaps[0].covers(states[0].held())
    &&& forall|k: int|
        0 <= k < events.len() ==> heap_happens(
            heaps[k],
            states[k],
            #[trigger] events[k],
            heaps[k + 1],
            states[k + 1],
        )
}

/// An event keeps the producer's references counted.
proof fn lemma_covered_step(h0: Heap, s0: State, ev: Event, h1: Heap, s1: State)
    requires
        happens(s0, ev, s1),
        heap_happens(h0, s0, ev, h1, s1),
        h0.covers(s0.held()),
    ensures
        h1.covers(s1.held()),
{
    if ev is Others {
        let (m0, m1) = choose|m0: Holding, m1: Holding| #[trigger]
            transfer(h0, h1, m0, m1) && h0.covers(both(m0, s0.held()));
        law_other_holders_unaffected(h0, h1, m0, m1, s0.held());
        assert forall|q: u64| #[trigger] s1.held()(q) <= h1.count(q) by {
            assert(both(m1, s0.held())(q) <= h1.count(q));
        }
    } else {
        lemma_covers(h0, h1, s0.held(), s1.held(), handed_out(s0, ev));
    }
}

/// Along a run, the producer's references stay counted.
proof fn lemma_run_covered(states: Seq<State>, heaps: Seq<Heap>, events: Seq<Event>, k: int)
    requires
        is_heap_run(states, heaps, events),
        0 <= k < states.len(),
    ensures
        heaps[k].covers(states[k].held()),
    decreases k,
{
    if k > 0 {
        lemma_run_covered(states, heaps, events, k - 1);
        assert(happens(states[k - 1], events[k - 1], states[k - 1 + 1]));
        assert(heap_happens(
            heaps[k - 1],
            states[k - 1],
            events[k - 1],
            heaps[k - 1 + 1],
            states[k - 1 + 1],
        ));
        lemma_covered_step(
            heaps[k - 1],
            states[k - 1],
            events[k - 1],
            heaps[k],
            states[k],
        );
    }
}

/// How many references to the frame at `b` the producer holds as a frame: in
/// hand, in mailboxes and in pumps, not as its payload.
pub open spec fn frames_held(s: State, b: u64) -> nat {
    subs_refs(s.subs, b) + frame_refs(s.emitting())(b)
}

/// A frame that the producer holds before and after an event keeps its
/// storage and its bytes.
proof fn lemma_held_frame_keeps(h0: Heap, s0: State, ev: Event, h1: Heap, s1: State, b: u64)
    requires
        happens(s0, ev, s1),
        heap_happens(h0, s0, ev, h1, s1),
        h0.covers(s0.held()),
        h1.covers(s1.held()),
        frames_held(s0, b) >= 1,
        frames_held(s1, b) >= 1,
    ensures
        h0.live(b),
        h1.live(b),
        h1.storage(b) == h0.storage(b),
{
    assert(s0.held()(b) <= h0.count(b));
    assert(s1.held()(b) <= h1.count(b));
    assert(h0.live(b) && h1.live(b));
    if ev is Others {
        let (m0, m1) = choose|m0: Holding, m1: Holding| #[trigger]
            transfer(h0, h1, m0, m1) && h0.covers(both(m0, s0.held()));
        assert(both(m0, s0.held())(b) <= h0.count(b));
    }
}

/// Whether `ev` makes frame `index`.
pub open spec fn makes(ev: Event, index: u32) -> bool {
    ev matches Event::Produce { out, .. } && out == (ProducerStep::Produced { index })
}

/// Whether `v` is the storage of frame `index` as it was made by one of the
/// first `n` events: in storage of `kind`, or of the heap where that could
/// not be had then.
pub open spec fn made_as(
    heaps: Seq<Heap>,
    events: Seq<Event>,
    n: int,
    index: u32,
    kind: u32,
    v: StorageView,
) -> bool {
    exists|m: int|
        0 <= m < n && #[trigger] makes(events[m], index) && v == made_storage(
            heaps[m].supply,
            frame_seed(index),
            kind,
        )
}

/// The buffer that a call is made with.
pub open spec fn invoked_with(inv: Invocation) -> u64 {
    match inv {
        Invocation::C { buf, .. } => buf.addr,
        Invocation::Rust { frame, .. } => frame.buf,
    }
}

/// The buffer that `ev` calls a subscription with.
pub open spec fn called_with(pre: State, ev: Event) -> u64 {
    match ev {
        Event::Produce { out, .. } => match out {
            ProducerStep::Delivered { what, .. } => match what {
                Delivery::Invoke(inv) => invoked_with(inv),
                _ => 0,
            },
            _ => 0,
        },
        Event::Pump { id } => match pre.pump_step(id) {
            PumpStep::Invoke(inv) => invoked_with(inv),
            _ => 0,
        },
        _ => 0,
    }
}

/// What subscription `id` finds in the frames that it is called with, call by
/// call, over the first `n` events.
pub open spec fn seen(
    states: Seq<State>,
    heaps: Seq<Heap>,
    events: Seq<Event>,
    id: u64,
    n: nat,
) -> Seq<StorageView>
    decreases n,
{
    if n == 0 {
        Seq::empty()
    } else {
        let before = seen(states, heaps, events, id, (n - 1) as nat);
        if begins_call(states[n - 1], events[n - 1], id) {
            before.push(heaps[n as int].storage(called_with(states[n - 1], events[n - 1])))
        } else {
            before
        }
    }
}

/// Whether none of `events` starts a stream.
pub open spec fn no_start(events: Seq<Event>) -> bool {
    forall|k: int| 0 <= k < events.len() ==> !(#[trigger] events[k] is Stream)
}

/// Along a run of one stream, the frame in hand is as it was made.
proof fn lemma_in_hand_as_made(states: Seq<State>, heaps: Seq<Heap>, events: Seq<Event>, n: nat)
    requires
        is_heap_run(states, heaps, events),
        no_start(events),
        states[0].stream is Some,
        states[0].stream->Some_0.frame is None,
        n <= events.len(),
    ensures
        states[n as int].stream matches Some(p) ==> p.count == states[0].stream->Some_0.count
            && p.kind == states[0].stream->Some_0.kind,
        states[n as int].emitting() matches Some(f) ==> made_as(
            heaps,
            events,
            n as int,
            states[n as int].stream->Some_0.next,
            states[0].stream->Some_0.kind,
            heaps[n as int].storage(f.buf),
        ),
    decreases n,
{
    if n > 0 {
        let m = n - 1;
        lemma_in_hand_as_made(states, heaps, events, m as nat);
        let (s0, s1, h0, h1) = (states[m], states[m + 1], heaps[m], heaps[m + 1]);
        let ev = events[m];
        let kind = states[0].stream->Some_0.kind;
        assert(happens(s0, ev, s1));
        assert(heap_happens(h0, s0, ev, h1, s1));
        lemma_run_covered(states, heaps, events, m);
        lemma_run_covered(states, heaps, events, m + 1);
        assert(!(ev is Stream));
        if s0.stream is Some && s1.stream is Some {
            lemma_stream_step(s0, ev, s1);
        }
        if s1.emitting() is Some {
            let v = h1.storage(s1.emitting()->Some_0.buf);
            let index = s1.stream->Some_0.next;
            if s0.emitting() is Some {
                assert(s1.emitting() == s0.emitting());
                assert(s1.stream->Some_0.next == s0.stream->Some_0.next);
                lemma_held_frame_keeps(h0, s0, ev, h1, s1, s1.emitting()->Some_0.buf);
                let k = choose|k: int|
                    0 <= k < m && #[trigger] makes(events[k], index) && v == made_storage(
                        heaps[k].supply,
                        frame_seed(index),
                        kind,
                    );
                assert(makes(events[k], index));
            } else {
                assert(makes(events[m], index));
            }
        }
    }
}

/// Along a run of one stream, what a subscription finds in the frames that it
/// is called with is what they were made with.
proof fn lemma_seen(
    states: Seq<State>,
    heaps: Seq<Heap>,
    events: Seq<Event>,
    id: u64,
    n: nat,
)
    requires
        is_heap_run(states, heaps, events),
        one_stream(states, events),
        is_blocking(states[0], id),
        stays_subscribed(states, id),
        states[0].stream->Some_0.frame is None,
        n <= events.len(),
    ensures
        seen(states, heaps, events, id, n).len() == received(states, events, id, n).len(),
        forall|i: int|
            0 <= i < seen(states, heaps, events, id, n).len() ==> made_as(
                heaps,
                events,
                n as int,
                received(states, events, id, n)[i],
                states[0].stream->Some_0.kind,
                #[trigger] seen(states, heaps, events, id, n)[i],
            ),
    decreases n,
{
    if n > 0 {
        let m = (n - 1) as nat;
        lemma_seen(states, heaps, events, id, m);
        let kind = states[0].stream->Some_0.kind;
        let (s0, s1) = (states[m as int], states[n as int]);
        assert(happens(s0, events[m as int], states[m as int + 1]));
        lemma_in_hand_as_made(states, heaps, events, m);
        lemma_in_hand_as_made(states, heaps, events, n);
        lemma_stays_blocking(states, events, id, m as int);
        lemma_run_wf(states, events, m as int);
        lemma_index_of(s0.subs, id);
        let a = seen(states, heaps, events, id, m);
        let b = seen(states, heaps, events, id, n);
        assert forall|i: int| 0 <= i < b.len() implies made_as(
            heaps,
            events,
            n as int,
            received(states, events, id, n)[i],
            kind,
            #[trigger] b[i],
        ) by {
            if i < a.len() {
                let index = received(states, events, id, m)[i];
                assert(made_as(heaps, events, m as int, index, kind, a[i]));
                let k = choose|k: int|
                    0 <= k < m && #[trigger] makes(events[k], index) && a[i] == made_storage(
                        heaps[k].supply,
                        frame_seed(index),
                        kind,
                    );
                assert(makes(events[k], index));
            }
        }
    }
}

/// A stream of `count` frames calls every blocking subscription that is there
/// from its start to its end exactly `count` times. Call `i` is made with
/// frame `i`: its byte `k` is `i + k` modulo 256, and its storage is of the
/// kind that was selected when the stream was started, or of the heap where
/// that could not be had when the frame was made. Whatever else goes on, in
/// the producer or elsewhere, changes none of this.
pub proof fn law_stream_calls_carry_their_frames(
    pre: State,
    count: u32,
    period_ms: u32,
    states: Seq<State>,
    heaps: Seq<Heap>,
    events: Seq<Event>,
    id: u64,
)
    requires
        pre.wf(),
        happens(pre, Event::Stream { count, period_ms }, states[0]),
        is_heap_run(states, heaps, events),
        one_stream(states, events),
        is_blocking(pre, id),
        stays_subscribed(states, id),
        states.last().stream->Some_0.finished(),
    ensures
        received(states, events, id, events.len()) == between(0, count as nat),
        seen(states, heaps, events, id, events.len()).len() == count,
        forall|i: int|
            0 <= i < count ==> made_as(
                heaps,
                events,
                events.len() as int,
                i as u32,
                pre.frame_kind,
                #[trigger] seen(states, heaps, events, id, events.len())[i],
            ),
        forall|i: int, k: int|
            0 <= i < count && 0 <= k < FRAME_LEN ==> #[trigger] seen(
                states,
                heaps,
                events,
                id,
                events.len(),
            )[i].bytes[k] == (i + k) % 256,
        forall|i: int|
            0 <= i < count ==> ({
                let v = #[trigger] seen(states, heaps, events, id, events.len())[i];
                &&& v.bytes.len() == FRAME_LEN
                &&& v.kind == pre.frame_kind || v.kind == A_STORAGE_HEAP
            }),
{
    lemma_received(states, events, id, events.len());
    lemma_seen(states, heaps, events, id, events.len());
    let all = seen(states, heaps, events, id, events.len());
    assert forall|i: int| 0 <= i < count implies ({
        let v = #[trigger] all[i];
        &&& made_as(heaps, events, events.len() as int, i as u32, pre.frame_kind, v)
        &&& v.bytes == pattern(frame_seed(i as u32))
        &&& v.kind == pre.frame_kind || v.kind == A_STORAGE_HEAP
    }) by {
        assert(received(states, events, id, events.len())[i] == i as u32);
    }
    assert forall|i: int, k: int| 0 <= i < count && 0 <= k < FRAME_LEN implies (
    #[trigger] all[i].bytes[k]) == (i + k) % 256 by {
        assert(all[i].bytes == pattern(frame_seed(i as u32)));
    }
}

/// Whether subscription `id` is in a call that it was lent the buffer `b`
/// for.
pub open spec fn lends(s: State, id: u64, b: u64) -> bool {
    let i = index_of(s.subs, id);
    &&& i >= 0
    &&& s.subs[i].running
    &&& match s.subs[i].pump {
        Some(p) => p.current == Some(Frame { buf: b }),
        None => s.calling(id) && s.emitting() == Some(Frame { buf: b }),
    }
}

/// What is lent is held.
proof fn lemma_lent_is_held(s: State, id: u64, b: u64)
    requires
        lends(s, id, b),
    ensures
        frames_held(s, b) >= 1,
{
    lemma_index_of(s.subs, id);
    lemma_subs_member(s.subs, index_of(s.subs, id), b);
}

/// A call that begins lends its buffer.
proof fn lemma_call_lends(pre: State, ev: Event, post: State, id: u64)
    requires
        pre.wf(),
        happens(pre, ev, post),
        begins_call(pre, ev, id),
    ensures
        lends(post, id, called_with(pre, ev)),
        frames_held(pre, called_with(pre, ev)) >= 1,
{
    lemma_index_of(pre.subs, id);
    let i = index_of(pre.subs, id);
    match ev {
        Event::Pump { id: j } => {
            lemma_index_update(pre.subs, i, pre.subs[i].pumped(), id);
            lemma_subs_member(pre.subs, i, called_with(pre, ev));
        },
        Event::Produce { out, fresh } => {
            lemma_index_update(
                pre.subs,
                i,
                pre.subs[i].delivered(pre.emitting()->Some_0.buf),
                id,
            );
        },
        _ => {},
    }
}

/// Tearing down subscriptions waits for one that is in a call.
proof fn lemma_closing_waits(s: Seq<SubEntry>, id: u64)
    requires
        distinct_subs(s),
        index_of(s, id) >= 0,
        s[index_of(s, id)].running,
    ensures
        closing(s).1 !is Done,
        index_of(closing(s).0, id) >= 0,
        ({
            let e = closing(s).0[index_of(closing(s).0, id)];
            e == s[index_of(s, id)] || e == closed(s[index_of(s, id)])
        }),
    decreases s.len(),
{
    lemma_index_of(s, id);
    if closed(s[0]).waits_for() is Done {
        let t = s.drop_first();
        assert forall|i: int, j: int| 0 <= i < j < t.len() implies (#[trigger] t[i]).id != (
        #[trigger] t[j]).id by {
            assert(s[i + 1].id != s[j + 1].id);
        }
        lemma_index_of(t, id);
        assert(t[index_of(s, id) - 1].id == id);
        lemma_closing_waits(t, id);
    } else {
        lemma_index_update(s, 0, closed(s[0]), id);
    }
}

/// Whether `ev` is the return from the call of subscription `id`.
pub open spec fn call_returns(ev: Event, id: u64) -> bool {
    ev matches Event::Return { id: i } && i == id
}

/// What is lent stays lent until the call returns.
proof fn lemma_stays_lent(pre: State, ev: Event, post: State, id: u64, b: u64)
    requires
        pre.wf(),
        post.wf(),
        happens(pre, ev, post),
        lends(pre, id, b),
        !call_returns(ev, id),
    ensures
        lends(post, id, b),
{
    lemma_index_of(pre.subs, id);
    lemma_index_of(post.subs, id);
    let i = index_of(pre.subs, id);
    assert(pre.subs[i].wf());
    match ev {
        Event::Subscribe { cb, policy } => {
            assert(post.subs[i] == pre.subs[i]);
        },
        Event::Unsubscribe { id: j } => {
            lemma_index_of(pre.subs, j);
            let m = index_of(pre.subs, j);
            if m >= 0 {
                if closed(pre.subs[m]).waits_for() is Done {
                    let a = if i < m { i } else { i - 1 };
                    assert(post.subs[a] == pre.subs[i]);
                } else {
                    lemma_index_update(pre.subs, m, closed(pre.subs[m]), id);
                }
            }
        },
        Event::Return { id: j } => {
            lemma_index_of(pre.subs, j);
            let m = index_of(pre.subs, j);
            lemma_index_update(pre.subs, m, pre.subs[m].finished(), id);
        },
        Event::Pump { id: j } => {
            lemma_index_of(pre.subs, j);
            let m = index_of(pre.subs, j);
            if m >= 0 {
                lemma_index_update(pre.subs, m, pre.subs[m].pumped(), id);
            }
        },
        Event::Produce { out, fresh } => {
            if pre.pending.len() > 0 && pre.emitting() is Some {
                let j = pre.pending[0];
                lemma_index_of(pre.subs, j);
                let m = index_of(pre.subs, j);
                if m >= 0 {
                    lemma_index_update(
                        pre.subs,
                        m,
                        pre.subs[m].delivered(pre.emitting()->Some_0.buf),
                        id,
                    );
                }
            }
        },
        Event::Destroy => {
            lemma_closing_waits(pre.subs, id);
        },
        _ => {},
    }
}

/// A frame is lent for the whole call: from the moment a subscription is
/// called, by the producer or by its pump, until that call returns, the
/// buffer that it was called with stays alive in the same storage with the
/// same bytes. Unsubscribing, destroying, streaming on or filling meanwhile
/// changes nothing of that, nor does anything that other holders do.
pub proof fn law_frame_is_lent_until_return(
    states: Seq<State>,
    heaps: Seq<Heap>,
    events: Seq<Event>,
    id: u64,
    k: int,
    n: int,
)
    requires
        is_heap_run(states, heaps, events),
        0 <= k < n < states.len(),
        begins_call(states[k], events[k], id),
        forall|j: int| k < j < n ==> !call_returns(#[trigger] events[j], id),
    ensures
        ({
            let b = called_with(states[k], events[k]);
            &&& lends(states[n], id, b)
            &&& heaps[n].live(b)
            &&& heaps[n].storage(b) == heaps[k].storage(b)
            &&& heaps[n].bytes_at(b) == heaps[k].bytes_at(b)
        }),
    decreases n,
{
    let b = called_with(states[k], events[k]);
    let m = n - 1;
    let (s0, s1, h0, h1) = (states[m], states[m + 1], heaps[m], heaps[m + 1]);
    assert(happens(s0, events[m], s1));
    assert(heap_happens(h0, s0, events[m], h1, s1));
    lemma_run_wf(states, events, m);
    lemma_run_wf(states, events, n);
    lemma_run_covered(states, heaps, events, m);
    lemma_run_covered(states, heaps, events, n);
    if m == k {
        lemma_call_lends(s0, events[m], s1, id);
    } else {
        law_frame_is_lent_until_return(states, heaps, events, id, k, m);
        lemma_stays_lent(s0, events[m], s1, id, b);
        lemma_lent_is_held(s0, id, b);
    }
    lemma_lent_is_held(s1, id, b);
    lemma_held_frame_keeps(h0, s0, events[m], h1, s1, b);
}

/// The frame that waits in the mailbox of subscription `id`.
pub open spec fn in_mailbox_of(s: State, id: u64) -> Option<Frame> {
    let i = index_of(s.subs, id);
    if i >= 0 && s.subs[i].pump is Some {
        s.subs[i].pump->Some_0.slot
    } else {
        None
    }
}

/// The index of the frame that was last put into the mailbox of subscription
/// `id` by the first `n` events, if no call took it from there.
pub open spec fn waiting_index(
    states: Seq<State>,
    events: Seq<Event>,
    id: u64,
    n: nat,
) -> Option<u32>
    decreases n,
{
    if n == 0 {
        None
    } else if hands(events[n - 1], id) {
        Some(states[n - 1].stream->Some_0.next)
    } else if begins_call(states[n - 1], events[n - 1], id) {
        None
    } else {
        waiting_index(states, events, id, (n - 1) as nat)
    }
}

/// The indices of the frames that subscription `id` is called with, by the
/// producer or by its pump, in the order of the calls that the first `n`
/// events make.
pub open spec fn called_indices(states: Seq<State>, events: Seq<Event>, id: u64, n: nat) -> Seq<
    u32,
>
    decreases n,
{
    if n == 0 {
        Seq::empty()
    } else {
        let before = called_indices(states, events, id, (n - 1) as nat);
        if !begins_call(states[n - 1], events[n - 1], id) {
            before
        } else if events[n - 1] is Produce {
            before.push(states[n - 1].stream->Some_0.next)
        } else {
            before.push(waiting_index(states, events, id, (n - 1) as nat)->Some_0)
        }
    }
}

/// One event's effect on what waits in a mailbox.
proof fn lemma_waiting_step(pre: State, ev: Event, post: State, id: u64)
    requires
        pre.wf(),
        post.wf(),
        happens(pre, ev, post),
    ensures
        in_mailbox_of(post, id) matches Some(f) ==> if hands(ev, id) {
            pre.emitting() == Some(f)
        } else {
            !begins_call(pre, ev, id) && in_mailbox_of(pre, id) == Some(f)
        },
        begins_call(pre, ev, id) && ev is Pump ==> in_mailbox_of(pre, id) == Some(
            Frame { buf: called_with(pre, ev) },
        ),
        begins_call(pre, ev, id) && ev is Produce ==> pre.emitting() == Some(
            Frame { buf: called_with(pre, ev) },
        ),
{
    lemma_index_of(pre.subs, id);
    lemma_index_of(post.subs, id);
    let i = index_of(pre.subs, id);
    let k = index_of(post.subs, id);
    match ev {
        Event::Subscribe { cb, policy } => {
            if 0 <= k < pre.subs.len() {
                assert(post.subs[k] == pre.subs[k]);
            }
        },
        Event::Unsubscribe { id: j } => {
            lemma_index_of(pre.subs, j);
            let m = index_of(pre.subs, j);
            if m >= 0 && k >= 0 {
                if closed(pre.subs[m]).waits_for() is Done {
                    let b = if k < m { k } else { k + 1 };
                    assert(post.subs[k] == pre.subs[b]);
                } else {
                    lemma_index_update(pre.subs, m, closed(pre.subs[m]), id);
                }
            }
        },
        Event::Return { id: j } => {
            lemma_index_of(pre.subs, j);
            let m = index_of(pre.subs, j);
            lemma_index_update(pre.subs, m, pre.subs[m].finished(), id);
        },
        Event::Pump { id: j } => {
            lemma_index_of(pre.subs, j);
            let m = index_of(pre.subs, j);
            if m >= 0 {
                lemma_index_update(pre.subs, m, pre.subs[m].pumped(), id);
            }
        },
        Event::Produce { out, fresh } => {
            if pre.pending.len() > 0 && pre.emitting() is Some {
                let j = pre.pending[0];
                lemma_index_of(pre.subs, j);
                let m = index_of(pre.subs, j);
                if m >= 0 {
                    lemma_index_update(
                        pre.subs,
                        m,
                        pre.subs[m].delivered(pre.emitting()->Some_0.buf),
                        id,
                    );
                }
            }
        },
        Event::Destroy => {
            if k >= 0 && post.subs == closing(pre.subs).0 {
                lemma_closing_entry(pre.subs, id);
            }
        },
        _ => {},
    }
}

/// What waits in a mailbox is held.
proof fn lemma_waiting_is_held(s: State, id: u64)
    ensures
        in_mailbox_of(s, id) matches Some(f) ==> frames_held(s, f.buf) >= 1,
{
    if in_mailbox_of(s, id) is Some {
        lemma_index_of(s.subs, id);
        lemma_subs_member(s.subs, index_of(s.subs, id), in_mailbox_of(s, id)->Some_0.buf);
    }
}

/// One event's effect on how many frames of a stream are behind a
/// subscription.
proof fn lemma_had_step(pre: State, ev: Event, post: State, id: u64)
    requires
        pre.wf(),
        post.wf(),
        happens(pre, ev, post),
        pre.stream is Some,
        post.stream is Some,
        !(ev is Stream),
    ensures
        had(pre, id) <= had(post, id),
        hands(ev, id) || (begins_call(pre, ev, id) && ev is Produce) ==> pre.stream->Some_0.next
            == had(pre, id) && had(post, id) == had(pre, id) + 1,
{
    match ev {
        Event::Produce { out, fresh } => {
            let p = pre.stream->Some_0;
            if p.calling is None && p.frame is Some && pre.pending.len() > 0 {
                lemma_drop_first_contains(pre.pending, id);
                assert(pre.pending.contains(pre.pending[0]));
            }
        },
        _ => {},
    }
}

/// What was made by the first events was made by them and some more.
proof fn lemma_made_later(
    heaps: Seq<Heap>,
    events: Seq<Event>,
    m: int,
    n: int,
    index: u32,
    kind: u32,
    v: StorageView,
)
    requires
        made_as(heaps, events, m, index, kind, v),
        m <= n,
    ensures
        made_as(heaps, events, n, index, kind, v),
{
    let k = choose|k: int|
        0 <= k < m && #[trigger] makes(events[k], index) && v == made_storage(
            heaps[k].supply,
            frame_seed(index),
            kind,
        );
    assert(makes(events[k], index));
}

/// Along a run of one stream, calls carry produced frames in order.
proof fn lemma_calls_in_order(
    states: Seq<State>,
    heaps: Seq<Heap>,
    events: Seq<Event>,
    id: u64,
    n: nat,
)
    requires
        is_heap_run(states, heaps, events),
        no_start(events),
        states[0].stream is Some,
        states[0].stream->Some_0.frame is None,
        in_mailbox_of(states[0], id) is None,
        n <= events.len(),
    ensures
        ({
            let kind = states[0].stream->Some_0.kind;
            let all = seen(states, heaps, events, id, n);
            let calls = called_indices(states, events, id, n);
            let s = states[n as int];
            &&& all.len() == calls.len()
            &&& forall|i: int|
                0 <= i < all.len() ==> made_as(
                    heaps,
                    events,
                    n as int,
                    calls[i],
                    kind,
                    #[trigger] all[i],
                )
            &&& forall|i: int, j: int| 0 <= i < j < calls.len() ==> calls[i] < calls[j]
            &&& forall|i: int|
                0 <= i < calls.len() ==> #[trigger] calls[i] < states[0].stream->Some_0.count
            &&& in_mailbox_of(s, id) matches Some(f) ==> {
                let w = waiting_index(states, events, id, n);
                &&& w is Some
                &&& made_as(
                    heaps,
                    events,
                    n as int,
                    w->Some_0,
                    kind,
                    heaps[n as int].storage(f.buf),
                )
                &&& w->Some_0 < states[0].stream->Some_0.count
                &&& s.stream is Some ==> w->Some_0 < had(s, id)
                &&& forall|i: int| 0 <= i < calls.len() ==> #[trigger] calls[i] < w->Some_0
            }
            &&& s.stream is Some ==> forall|i: int|
                0 <= i < calls.len() ==> #[trigger] calls[i] < had(s, id)
        }),
    decreases n,
{
    if n > 0 {
        let m = (n - 1) as nat;
        lemma_calls_in_order(states, heaps, events, id, m);
        let kind = states[0].stream->Some_0.kind;
        let (s0, s1) = (states[m as int], states[n as int]);
        let (h0, h1) = (heaps[m as int], heaps[n as int]);
        let ev = events[m as int];
        assert(happens(s0, ev, states[m as int + 1]));
        assert(heap_happens(h0, s0, ev, heaps[m as int + 1], states[m as int + 1]));
        assert(!(ev is Stream));
        lemma_run_wf(states, events, m as int);
        lemma_run_wf(states, events, n as int);
        lemma_run_covered(states, heaps, events, m as int);
        lemma_run_covered(states, heaps, events, n as int);
        lemma_in_hand_as_made(states, heaps, events, m);
        lemma_waiting_step(s0, ev, s1, id);
        lemma_waiting_is_held(s0, id);
        lemma_waiting_is_held(s1, id);
        if s0.stream is Some && s1.stream is Some {
            lemma_had_step(s0, ev, s1, id);
        }
        if begins_call(s0, ev, id) {
            let b = called_with(s0, ev);
            lemma_call_lends(s0, ev, s1, id);
            lemma_lent_is_held(s1, id, b);
            lemma_held_frame_keeps(h0, s0, ev, h1, s1, b);
            lemma_made_later(
                heaps,
                events,
                m as int,
                n as int,
                called_indices(states, events, id, n).last(),
                kind,
                h1.storage(b),
            );
        }
        if in_mailbox_of(s1, id) is Some {
            let f = in_mailbox_of(s1, id)->Some_0.buf;
            lemma_held_frame_keeps(h0, s0, ev, h1, s1, f);
            lemma_made_later(
                heaps,
                events,
                m as int,
                n as int,
                waiting_index(states, events, id, n)->Some_0,
                kind,
                h1.storage(f),
            );
        }
        let a = seen(states, heaps, events, id, m);
        let b = seen(states, heaps, events, id, n);
        let calls = called_indices(states, events, id, n);
        assert forall|i: int| 0 <= i < b.len() implies made_as(
            heaps,
            events,
            n as int,
            calls[i],
            kind,
            #[trigger] b[i],
        ) by {
            if i < a.len() {
                assert(made_as(heaps, events, m as int, calls[i], kind, a[i]));
                lemma_made_later(heaps, events, m as int, n as int, calls[i], kind, a[i]);
            }
        }
    }
}

/// Every call that a stream leads to, of a subscription with a mailbox or
/// without, there from the start or not, carries a frame that the stream has
/// made, with the bytes and the storage that it was made with; and the frames
/// come in strictly increasing order, none twice. A call that takes the last
/// frame from a mailbox after the stream has ended is no different. Nothing
/// must be left in the mailbox from an earlier stream.
pub proof fn law_calls_carry_produced_frames_in_order(
    pre: State,
    count: u32,
    period_ms: u32,
    states: Seq<State>,
    heaps: Seq<Heap>,
    events: Seq<Event>,
    id: u64,
)
    requires
        pre.wf(),
        in_mailbox_of(pre, id) is None,
        happens(pre, Event::Stream { count, period_ms }, states[0]),
        is_heap_run(states, heaps, events),
        no_start(events),
    ensures
        ({
            let all = seen(states, heaps, events, id, events.len());
            let calls = called_indices(states, events, id, events.len());
            &&& all.len() == calls.len()
            &&& forall|i: int, j: int| 0 <= i < j < calls.len() ==> calls[i] < calls[j]
            &&& forall|i: int| 0 <= i < calls.len() ==> #[trigger] calls[i] < count
            &&& forall|i: int|
                0 <= i < all.len() ==> made_as(
                    heaps,
                    events,
                    events.len() as int,
                    calls[i],
                    pre.frame_kind,
                    #[trigger] all[i],
                )
            &&& forall|i: int|
                0 <= i < all.len() ==> (#[trigger] all[i]).bytes.len() == FRAME_LEN && (
                all[i].kind == pre.frame_kind || all[i].kind == A_STORAGE_HEAP)
            &&& forall|i: int, k: int|
                0 <= i < all.len() && 0 <= k < FRAME_LEN ==> #[trigger] all[i].bytes[k] == (
                calls[i] + k) % 256
        }),
{
    lemma_calls_in_order(states, heaps, events, id, events.len());
    let all = seen(states, heaps, events, id, events.len());
    let calls = called_indices(states, events, id, events.len());
    assert forall|i: int| 0 <= i < all.len() implies {
        &&& (#[trigger] all[i]).bytes == pattern(frame_seed(calls[i]))
        &&& all[i].kind == pre.frame_kind || all[i].kind == A_STORAGE_HEAP
    } by {
        assert(made_as(heaps, events, events.len() as int, calls[i], pre.frame_kind, all[i]));
    }
    assert forall|i: int, k: int| 0 <= i < all.len() && 0 <= k < FRAME_LEN implies (
    #[trigger] all[i].bytes[k]) == (calls[i] + k) % 256 by {
        assert(all[i].bytes == pattern(frame_seed(calls[i])));
    }
}

} // verus!
