//! One step at a time: what a delivery, a pump, a return, a teardown and the
//! producer thread do to the subscription that they concern, and that they
//! leave every other one alone.

use vstd::prelude::*;
use crate::abi::A_DELIVERY_LATEST;
use crate::capture::CaptureEntry;
use crate::capturing::{cancelled, lemma_job_finished, lemma_job_fired};
use crate::frame::Frame;
use crate::heap::{freed, freed_all, lemma_freed_one, Heap};
use crate::promises::calls_back;
use crate::source::{
    index_of, is_listed, job_index, lemma_index_of, lemma_job_index, lemma_listed_ids, listed_ids,
    ProducerStep, State,
};
use crate::storage::PlatformCall;
use crate::streaming::{producer_calls, produces};
use crate::sub::{
    given, replaced_calls, Delivery, Invocation, PumpStep, SubCb, SubEntry, Teardown,
};
use crate::subscribe::{closed, lemma_index_update, new_sub};
use crate::teardown::closing;

verus! {

/// Whether `inv` is a call with the frame at `buf`.
pub open spec fn carries(inv: Invocation, buf: u64) -> bool {
    match inv {
        Invocation::C { buf: b, .. } => b.addr == buf,
        Invocation::Rust { frame, .. } => frame.buf == buf,
    }
}

/// Whether two entries are the same subscription: identifier, callback and
/// policy.
pub open spec fn same_subscription(a: SubEntry, b: SubEntry) -> bool {
    &&& a.id == b.id
    &&& a.cb == b.cb
    &&& a.pump is Some <==> b.pump is Some
}

/// The subscription `id` of `s`, if there is one.
pub open spec fn entry_of(s: State, id: u64) -> Option<SubEntry> {
    if index_of(s.subs, id) >= 0 {
        Some(s.subs[index_of(s.subs, id)])
    } else {
        None
    }
}

/// Whether nothing but subscriptions and the stream differs.
pub open spec fn same_beside_subs(a: State, b: State) -> bool {
    &&& a.shared == b.shared
    &&& a.payload == b.payload
    &&& a.frame_kind == b.frame_kind
    &&& a.next_sub == b.next_sub
    &&& a.captures == b.captures
    &&& a.next_job == b.next_job
    &&& a.jobs == b.jobs
}

/// A new subscription is active, listed, not in a call, has the callback that
/// it was made with, and an empty mailbox with nothing missed exactly under
/// the mailbox policy.
pub proof fn law_new_subscription(s: State, cb: SubCb, policy: u32)
    requires
        s.next_sub < u64::MAX,
    ensures
        ({
            let t = s.subscribed(cb, policy);
            let e = t.subs.last();
            &&& t.subs.len() == s.subs.len() + 1
            &&& forall|i: int| 0 <= i < s.subs.len() ==> #[trigger] t.subs[i] == s.subs[i]
            &&& e == new_sub(e.id, cb, policy)
            &&& e.id == s.next_sub + 1
            &&& t.next_sub == e.id
            &&& e.active
            &&& e.listed
            &&& !e.running
            &&& e.cb == cb
            &&& e.pump is Some <==> policy == 1
            &&& e.pump matches Some(p) ==> p.slot is None && p.current is None && p.dropped == 0
                && p.alive
            &&& t.pending == s.pending
            &&& t.stream == s.stream
            &&& t.payload == s.payload
            &&& t.shared == s.shared
            &&& t.frame_kind == s.frame_kind
            &&& t.captures == s.captures
            &&& t.jobs == s.jobs
            &&& t.next_job == s.next_job
        }),
        A_DELIVERY_LATEST == 1,
{
}

/// A frame that reaches a subscription without mailbox is called with at
/// once, if the subscription is active, and is let go of if not. One that
/// reaches a mailbox lies there, in place of an older one, which then counts
/// as missed.
pub proof fn law_delivery(e: SubEntry, buf: u64)
    ensures
        same_subscription(e, e.delivered(buf)),
        e.delivered(buf).active == e.active,
        e.delivered(buf).listed == e.listed,
        e.pump is None && e.active ==> {
            &&& e.delivery(buf) matches Delivery::Invoke(inv) && calls_back(inv, e.cb) && carries(
                inv,
                buf,
            )
            &&& e.delivered(buf).running
        },
        e.pump is None && !e.active ==> e.delivery(buf) is Skipped && !e.delivered(buf).running,
        e.pump matches Some(p) ==> {
            &&& e.delivery(buf) is Handed
            &&& e.delivered(buf).running == e.running
            &&& e.delivered(buf).pump matches Some(q) && {
                &&& q.slot == Some(Frame { buf })
                &&& q.current == p.current
                &&& q.alive == p.alive
                &&& p.slot is None ==> q.dropped == p.dropped
                &&& p.slot is Some && p.dropped < u64::MAX ==> q.dropped == p.dropped + 1
                &&& p.slot is Some && p.dropped == u64::MAX ==> q.dropped == 0
            }
        },
{
}

/// A pump that is not in a call takes what lies in its mailbox: it calls back
/// with that very frame and keeps it for the call, or lets go of it where the
/// subscription is being torn down. With nothing there it sleeps, or ends
/// where the subscription is being torn down. In a call it is busy.
pub proof fn law_pump(e: SubEntry)
    ensures
        same_subscription(e, e.pumped()),
        e.pumped().active == e.active,
        e.pumped().listed == e.listed,
        e.pump is None ==> e.pump_step() is Exit && e.pumped() == e,
        e.pump matches Some(p) ==> {
            let q = e.pumped().pump->Some_0;
            &&& q.dropped == p.dropped
            &&& e.running ==> e.pump_step() is Busy && e.pumped() == e
            &&& !e.running ==> match p.slot {
                Some(f) => if e.active {
                    &&& e.pump_step() matches PumpStep::Invoke(inv) && calls_back(inv, e.cb)
                        && carries(inv, f.buf)
                    &&& e.pumped().running
                    &&& q.slot is None
                    &&& q.current == Some(f)
                    &&& q.alive == p.alive
                } else {
                    &&& e.pump_step() is Skipped
                    &&& !e.pumped().running
                    &&& q.slot is None
                    &&& q.current == p.current
                    &&& q.alive == p.alive
                },
                None => if e.active {
                    e.pump_step() is Wait && e.pumped() == e
                } else {
                    &&& e.pump_step() is Exit
                    &&& !q.alive
                    &&& !e.pumped().running
                    &&& q.slot is None
                    &&& q.current == p.current
                },
            }
        },
{
}

/// A call hands its callee a reference of its own where that is a closure,
/// and only lends the frame where it is a function.
pub proof fn law_call_lends_or_gives(inv: Invocation, q: u64)
    ensures
        inv is C ==> given(inv)(q) == 0,
        inv matches Invocation::Rust { frame, .. } ==> given(inv)(q) == if q == frame.buf {
            1nat
        } else {
            0
        },
{
}

/// A call that has returned is no longer in flight, and the frame that a pump
/// kept for it is gone; what lies in the mailbox stays there. The producer
/// thread goes on where it was that call which it waited for.
pub proof fn law_return(s: State, id: u64)
    requires
        s.wf(),
        s.in_call(id),
    ensures
        entry_of(s, id) matches Some(e) && e.running,
        !s.returned(id).in_call(id),
        entry_of(s.returned(id), id) matches Some(e) && {
            let old = entry_of(s, id)->Some_0;
            &&& same_subscription(old, e)
            &&& e.active == old.active
            &&& e.listed == old.listed
            &&& e.pump matches Some(p) ==> {
                &&& p.current is None
                &&& p.slot == old.pump->Some_0.slot
                &&& p.dropped == old.pump->Some_0.dropped
                &&& p.alive == old.pump->Some_0.alive
            }
        },
        !s.returned(id).calling(id),
        !s.calling(id) ==> s.returned(id).stream == s.stream,
        s.calling(id) ==> (s.returned(id).stream matches Some(p) && {
            let old = s.stream->Some_0;
            &&& p.calling is None
            &&& p.frame == old.frame
            &&& p.next == old.next
            &&& p.count == old.count
            &&& p.period_ms == old.period_ms
            &&& p.kind == old.kind
            &&& p.sleeping == old.sleeping
        }),
        s.returned(id).pending == s.pending,
        same_beside_subs(s, s.returned(id)),
{
    lemma_index_of(s.subs, id);
    let i = index_of(s.subs, id);
    lemma_index_update(s.subs, i, s.subs[i].finished(), id);
}

/// Unsubscribing is done exactly where nothing of the subscription is in
/// flight: no call, and no pump that has yet to end. Before that it waits
/// for the pump, and without one for the call, of that very subscription,
/// which gets no further frame and is not called again. Once done, it is
/// gone.
pub proof fn law_unsubscribing(s: State, id: u64)
    requires
        s.wf(),
    ensures
        match entry_of(s, id) {
            None => s.teardown(id) is Done && s.unsubscribed(id) == s,
            Some(e) => {
                &&& s.teardown(id) is Done <==> !e.running && (e.pump matches Some(p) ==> !p.alive)
                &&& s.teardown(id) == Teardown::JoinPump(id) <==> (e.pump matches Some(p)
                    && p.alive)
                &&& s.teardown(id) == Teardown::AwaitGate(id) <==> e.running && (e.pump matches
                    Some(p) ==> !p.alive)
                &&& s.teardown(id) is Done ==> entry_of(s.unsubscribed(id), id) is None
                &&& s.teardown(id) !is Done ==> (entry_of(s.unsubscribed(id), id) matches Some(c)
                    && {
                    &&& same_subscription(e, c)
                    &&& !c.active
                    &&& !c.listed
                    &&& c.running == e.running
                    &&& c.pump == e.pump
                })
            },
        },
        !is_listed(s.unsubscribed(id).subs, id),
        s.unsubscribed(id).pending == s.pending,
        s.unsubscribed(id).stream == s.stream,
        same_beside_subs(s, s.unsubscribed(id)),
{
    lemma_index_of(s.subs, id);
    let i = index_of(s.subs, id);
    if i >= 0 {
        let t = s.unsubscribed(id);
        if closed(s.subs[i]).waits_for() is Done {
            lemma_index_of(t.subs, id);
            let j = index_of(t.subs, id);
            if j >= 0 {
                assert(t.subs[j] == s.subs[if j < i { j } else { j + 1 }]);
            }
        } else {
            lemma_index_update(s.subs, i, closed(s.subs[i]), id);
        }
    }
}

/// What happens to one subscription leaves every other as it was.
pub proof fn law_other_subscriptions_are_left_alone(s: State, id: u64, other: u64)
    requires
        s.wf(),
        other != id,
    ensures
        entry_of(s.unsubscribed(id), other) == entry_of(s, other),
        s.in_call(id) ==> entry_of(s.returned(id), other) == entry_of(s, other),
        entry_of(s.pumped(id), other) == entry_of(s, other),
        same_beside_subs(s, s.pumped(id)),
        s.pumped(id).stream == s.stream,
        s.pumped(id).pending == s.pending,
{
    lemma_index_of(s.subs, id);
    lemma_index_of(s.subs, other);
    let i = index_of(s.subs, id);
    if i >= 0 {
        let t = s.unsubscribed(id);
        lemma_index_update(s.subs, i, s.subs[i].finished(), other);
        lemma_index_update(s.subs, i, s.subs[i].pumped(), other);
        if closed(s.subs[i]).waits_for() is Done {
            lemma_index_of(t.subs, other);
            let j = index_of(t.subs, other);
            let k = index_of(s.subs, other);
            if j >= 0 {
                let m = if j < i { j } else { j + 1 };
                assert(t.subs[j] == s.subs[m]);
                assert(m == k);
            }
            if k >= 0 {
                let m = if k < i { k } else { k - 1 };
                assert(t.subs[m] == s.subs[k]);
            }
        } else {
            lemma_index_update(s.subs, i, closed(s.subs[i]), other);
        }
    }
}

/// What is reported as missed is what the mailbox of a listed subscription
/// has counted; nothing for any other identifier.
pub proof fn law_missed_frames_are_reported(s: State, i: int, id: u64)
    requires
        s.wf(),
    ensures
        0 <= i < s.subs.len() && s.subs[i].listed ==> (s.subs[i].pump matches Some(p) ==> s.dropped(
            s.subs[i].id,
        ) == p.dropped),
        (forall|k: int|
            0 <= k < s.subs.len() && (#[trigger] s.subs[k]).id == id ==> !s.subs[k].listed
                || s.subs[k].pump is None) ==> s.dropped(id) == 0,
{
    lemma_index_of(s.subs, id);
    if 0 <= i < s.subs.len() {
        lemma_index_of(s.subs, s.subs[i].id);
    }
}

/// A frame goes to the listed subscriptions in the order in which they were
/// made, and to no other.
pub proof fn law_listed_in_order(a: Seq<SubEntry>, b: Seq<SubEntry>, e: SubEntry)
    ensures
        listed_ids(a + b) == listed_ids(a) + listed_ids(b),
        e.listed ==> listed_ids(seq![e]) == seq![e.id],
        !e.listed ==> listed_ids(seq![e]).len() == 0,
    decreases b.len(),
{
    reveal_with_fuel(listed_ids, 2);
    assert(seq![e].drop_last() =~= Seq::<SubEntry>::empty());
    if b.len() > 0 {
        law_listed_in_order(a, b.drop_last(), e);
        assert((a + b).drop_last() =~= a + b.drop_last());
        assert((a + b).last() == b.last());
        assert(listed_ids(a + b) =~= listed_ids(a) + listed_ids(b));
    } else {
        assert(a + b =~= a);
        assert(listed_ids(a + b) =~= listed_ids(a) + listed_ids(b));
    }
}

/// Subscriptions that have nothing in flight are torn down, those before the
/// first that has something; that one is waited for by its identifier.
pub proof fn law_tearing_down_subscriptions(s: Seq<SubEntry>)
    ensures
        closing(s).1 is Done <==> forall|i: int|
            0 <= i < s.len() ==> !(#[trigger] s[i]).running && (s[i].pump matches Some(p)
                ==> !p.alive),
        match closing(s).1 {
            Teardown::Done => closing(s).0.len() == 0,
            Teardown::JoinPump(id) => {
                let e = s[s.len() - closing(s).0.len()];
                &&& 0 < closing(s).0.len() <= s.len()
                &&& closing(s).0 == s.skip(s.len() - closing(s).0.len()).update(0, closing(s).0[0])
                &&& e.id == id
                &&& e.pump matches Some(p) && p.alive
                &&& same_subscription(e, closing(s).0[0])
                &&& !closing(s).0[0].active
                &&& !closing(s).0[0].listed
                &&& closing(s).0[0].running == e.running
                &&& closing(s).0[0].pump == e.pump
            },
            Teardown::AwaitGate(id) => {
                let e = s[s.len() - closing(s).0.len()];
                &&& 0 < closing(s).0.len() <= s.len()
                &&& closing(s).0 == s.skip(s.len() - closing(s).0.len()).update(0, closing(s).0[0])
                &&& e.id == id && e.running && (e.pump matches Some(p) ==> !p.alive)
                &&& same_subscription(e, closing(s).0[0])
                &&& !closing(s).0[0].active
                &&& !closing(s).0[0].listed
                &&& closing(s).0[0].running == e.running
                &&& closing(s).0[0].pump == e.pump
            },
            _ => false,
        },
    decreases s.len(),
{
    if s.len() > 0 {
        if closed(s[0]).waits_for() is Done {
            let t = s.drop_first();
            law_tearing_down_subscriptions(t);
            assert forall|i: int| 0 <= i < t.len() implies #[trigger] t[i] == s[i + 1] by {}
            if closing(s).1 is Done {
                assert forall|i: int| 0 <= i < s.len() implies !(#[trigger] s[i]).running && (
                s[i].pump matches Some(p) ==> !p.alive) by {
                    if i > 0 {
                        assert(s[i] == t[i - 1]);
                    }
                }
            } else {
                let n = closing(s).0.len();
                assert(t.skip(t.len() - n) =~= s.skip(s.len() - n));
            }
        } else {
            assert(s.skip(0) =~= s);
        }
    }
}

/// A teardown of the whole producer is done exactly where nothing is in
/// flight: the stream has ended, no subscription is in a call or has a pump
/// that has yet to end, and every capture has returned. It waits for the
/// stream first, then for subscriptions, then for captures, which it cancels
/// where they can be.
pub proof fn law_destroying(s: State)
    requires
        s.wf(),
    ensures
        s.destroying() is Done <==> {
            &&& s.stream matches Some(p) ==> p.next == p.count && p.frame is None
            &&& forall|i: int|
                0 <= i < s.subs.len() ==> !(#[trigger] s.subs[i]).running && (
                s.subs[i].pump matches Some(p) ==> !p.alive)
            &&& s.captures.len() == 0
            &&& s.jobs.len() == 0
        },
        s.destroying() is JoinStream <==> (s.stream matches Some(p) && !(p.next == p.count
            && p.frame is None)),
        s.destroying() is JoinStream ==> s.destroyed() == s,
        s.destroying() !is JoinStream ==> s.destroyed().stream is None,
        s.destroying() matches Teardown::JoinCapture(id) ==> {
            &&& s.destroyed().subs.len() == 0
            &&& s.captures.len() > 0
            &&& s.captures[0].id == id
            &&& s.destroyed().captures.len() == s.captures.len()
            &&& s.destroyed().captures[0].cancelled
            &&& !s.destroyed().captures[0].listed
            &&& s.destroyed().captures[0].id == id
            &&& s.destroyed().captures[0].cb == s.captures[0].cb
            &&& s.destroyed().captures[0].fired == s.captures[0].fired
            &&& forall|i: int|
                1 <= i < s.captures.len() ==> #[trigger] s.destroyed().captures[i] == s.captures[i]
        },
        s.destroying() matches Teardown::JoinJob(id) ==> {
            &&& s.destroyed().subs.len() == 0
            &&& s.captures.len() == 0
            &&& s.jobs.len() > 0
            &&& s.jobs[0].id == id
        },
        s.destroying() !is JoinCapture ==> s.destroyed().captures == s.captures,
        s.destroyed().jobs == s.jobs,
        s.destroyed().next_sub == s.next_sub,
        s.destroyed().next_job == s.next_job,
        s.destroyed().payload == s.payload,
        s.destroyed().shared == s.shared,
        s.destroyed().frame_kind == s.frame_kind,
{
    law_tearing_down_subscriptions(s.subs);
}

/// A cancelled capture is cancelled for good: it can no longer be reached to
/// be cancelled again, and is otherwise what it was.
pub proof fn law_cancelling(c: CaptureEntry)
    ensures
        cancelled(c).cancelled,
        !cancelled(c).listed,
        cancelled(c).id == c.id,
        cancelled(c).cb == c.cb,
        cancelled(c).kind == c.kind,
        cancelled(c).fired == c.fired,
{
}

/// A new capture that can be cancelled has yet to call its callback, can be
/// cancelled, and is not; it is numbered with the subscriptions, and leaves
/// every other capture as it was.
pub proof fn law_new_capture(s: State, f: u64)
    requires
        s.wf(),
        s.next_sub < u64::MAX,
    ensures
        ({
            let t = s.capturing(f);
            let id = t.next_sub;
            &&& id == s.next_sub + 1
            &&& t.waiting(id)
            &&& t.capture(id).id == id
            &&& t.capture(id).cb == f
            &&& t.capture(id).kind == s.frame_kind
            &&& t.capture(id).listed
            &&& !t.capture(id).cancelled
            &&& !t.capture(id).fired
            &&& t.captures.len() == s.captures.len() + 1
            &&& forall|i: int|
                0 <= i < s.captures.len() ==> #[trigger] t.captures[i] == s.captures[i]
            &&& t.subs == s.subs
            &&& t.pending == s.pending
            &&& t.stream == s.stream
            &&& t.jobs == s.jobs
            &&& t.next_job == s.next_job
            &&& t.payload == s.payload
            &&& t.shared == s.shared
            &&& t.frame_kind == s.frame_kind
        }),
{
}

/// A new capture that cannot be cancelled has yet to call its callback. It
/// calls it once: then it is in its callback until that has returned, and
/// gone afterwards. Other captures are left alone.
pub proof fn law_life_of_a_job(s: State, f: u64, id: u64, other: u64)
    requires
        s.wf(),
        s.next_job < u64::MAX,
        other != id,
    ensures
        ({
            let t = s.job_started(f);
            &&& t.next_job == s.next_job + 1
            &&& t.job_waiting(t.next_job)
            &&& !t.job_in_call(t.next_job)
            &&& t.job(t.next_job) == s.new_job(f)
            &&& s.new_job(f).id == t.next_job
            &&& s.new_job(f).cb == f
            &&& s.new_job(f).kind == s.frame_kind
            &&& !s.new_job(f).fired
            &&& same_beside_jobs(s, t)
        }),
        s.job_waiting(id) ==> {
            let t = s.job_fired(id);
            &&& !t.job_waiting(id)
            &&& t.job_in_call(id)
            &&& t.job(id).cb == s.job(id).cb
            &&& t.job(id).kind == s.job(id).kind
            &&& job_index(s.jobs, other) >= 0 ==> t.job(other) == s.job(other)
            &&& t.next_job == s.next_job
            &&& same_beside_jobs(s, t)
        },
        s.job_in_call(id) ==> {
            let t = s.job_finished(id);
            &&& job_index(t.jobs, id) < 0
            &&& job_index(s.jobs, other) >= 0 ==> job_index(t.jobs, other) >= 0 && t.job(other)
                == s.job(other)
            &&& t.next_job == s.next_job
            &&& same_beside_jobs(s, t)
        },
{
    lemma_job_index(s.jobs, id);
    lemma_job_index(s.jobs, other);
    if s.job_waiting(id) {
        lemma_job_fired(s, id);
        lemma_job_index(s.job_fired(id).jobs, id);
        lemma_job_index(s.job_fired(id).jobs, other);
    }
    if s.job_in_call(id) {
        let t = s.job_finished(id);
        lemma_job_finished(s, id);
        lemma_job_index(t.jobs, id);
        lemma_job_index(t.jobs, other);
        let i = job_index(s.jobs, id);
        let k = job_index(s.jobs, other);
        if k >= 0 {
            assert(t.jobs[if k < i { k } else { k - 1 }] == s.jobs[k]);
            let l = job_index(t.jobs, other);
            assert(t.jobs[l] == s.jobs[if l < i { l } else { l + 1 }]);
        }
    }
}

/// Whether nothing but the captures that cannot be cancelled differs.
pub open spec fn same_beside_jobs(a: State, b: State) -> bool {
    &&& a.shared == b.shared
    &&& a.payload == b.payload
    &&& a.frame_kind == b.frame_kind
    &&& a.next_sub == b.next_sub
    &&& a.captures == b.captures
    &&& a.subs == b.subs
    &&& a.pending == b.pending
    &&& a.stream == b.stream
}

/// How much the producer thread has left to do: frames to make, then what is
/// left of the one in hand.
pub open spec fn work_left(s: State) -> int {
    match s.stream {
        None => 0,
        Some(p) => (p.count - p.next) * 2 + if p.frame is Some {
            -1int
        } else {
            0
        },
    }
}

/// The producer thread goes on whenever it is not in a call: it makes the
/// next frame, for exactly the subscriptions that are listed then, hands it
/// to each of them in turn, pauses once, and lets go of it. It says that it
/// is done exactly where every frame is out.
pub proof fn law_producer_goes_on(pre: State, post: State, out: ProducerStep, fresh: u64)
    requires
        pre.wf(),
        produces(pre, post, out, fresh),
    ensures
        out is Idle <==> pre.stream is None,
        out matches ProducerStep::Busy(id) ==> pre.calling(id),
        (exists|id: u64| pre.calling(id)) ==> out is Busy,
        out is Idle || out is Busy || out is Done ==> post == pre,
        out is Done <==> (pre.stream matches Some(p) && p.frame is None && p.next == p.count),
        out matches ProducerStep::Produced { index } ==> {
            let p = pre.stream->Some_0;
            &&& p.frame is None
            &&& index == p.next
            &&& p.next < p.count
            &&& post.emitting() == Some(Frame { buf: fresh })
            &&& forall|id: u64| #[trigger]
                post.pending.contains(id) <==> is_listed(pre.subs, id)
            &&& post.pending.no_duplicates()
            &&& post.subs == pre.subs
            &&& work_left(post) == work_left(pre) - 1
        },
        out matches ProducerStep::Delivered { id, what } ==> {
            &&& pre.pending.len() > 0
            &&& id == pre.pending[0]
            &&& post.pending == pre.pending.drop_first()
            &&& post.emitting() == pre.emitting()
            &&& match entry_of(pre, id) {
                None => what is Skipped && post.subs == pre.subs && post.stream == pre.stream,
                Some(e) => {
                    &&& what == e.delivery(pre.emitting()->Some_0.buf)
                    &&& entry_of(post, id) == Some(e.delivered(pre.emitting()->Some_0.buf))
                    &&& what is Invoke <==> post.calling(id)
                    &&& what !is Invoke ==> post.stream == pre.stream
                },
            }
            &&& forall|other: u64|
                other != id ==> #[trigger] entry_of(post, other) == entry_of(pre, other)
        },
        out matches ProducerStep::Sleep(ms) ==> {
            &&& pre.pending.len() == 0
            &&& !pre.stream->Some_0.sleeping
            &&& post.stream->Some_0.sleeping
            &&& ms == pre.stream->Some_0.period_ms
            &&& post.emitting() == pre.emitting()
            &&& post.subs == pre.subs
        },
        out matches ProducerStep::Retired { index } ==> {
            &&& pre.pending.len() == 0
            &&& pre.stream->Some_0.sleeping
            &&& pre.emitting() is Some
            &&& post.emitting() is None
            &&& index == pre.stream->Some_0.next
            &&& post.stream->Some_0.next == index + 1
            &&& !post.stream->Some_0.sleeping
            &&& post.subs == pre.subs
            &&& work_left(post) == work_left(pre) - 1
        },
        same_beside_subs(pre, post),
{
    lemma_listed_ids(pre.subs);
    if pre.stream is Some && pre.stream->Some_0.calling is Some {
        assert(pre.calling(pre.stream->Some_0.calling->Some_0));
    }
    if let ProducerStep::Delivered { id, what } = out {
        lemma_index_of(pre.subs, id);
        let i = index_of(pre.subs, id);
        if i >= 0 {
            let e = pre.subs[i].delivered(pre.emitting()->Some_0.buf);
            assert forall|other: u64| other != id implies #[trigger] entry_of(post, other)
                == entry_of(pre, other) by {
                lemma_index_update(pre.subs, i, e, other);
                lemma_index_of(pre.subs, other);
            }
            lemma_index_update(pre.subs, i, e, id);
        }
    }
}

/// What letting go of frames asks of the platform, step by step: the frame
/// that a newer one replaces, that a pump does not deliver or has delivered,
/// that is left in the mailbox of a subscription that is gone, and that the
/// producer thread had in hand; each is given back if that was its last
/// reference, and nothing else is asked.
pub proof fn law_what_letting_go_asks(h: Heap, s: State, id: u64, buf: u64, e: SubEntry)
    ensures
        e.pump is None ==> replaced_calls(h, e, buf).len() == 0,
        e.pump matches Some(p) ==> replaced_calls(h, e, buf) == match p.slot {
            Some(f) => if f.buf == buf {
                Seq::<PlatformCall>::empty()
            } else {
                freed(h, f.buf)
            },
            None => Seq::empty(),
        },
        s.pump_calls(h, id) == match entry_of(s, id) {
            Some(e) => match e.pump {
                Some(p) => match p.slot {
                    Some(f) => if !e.running && !e.active {
                        freed(h, f.buf)
                    } else {
                        Seq::<PlatformCall>::empty()
                    },
                    None => Seq::empty(),
                },
                None => Seq::empty(),
            },
            None => Seq::empty(),
        },
        s.return_calls(h, id) == match entry_of(s, id) {
            Some(e) => match e.pump {
                Some(p) => match p.current {
                    Some(f) => if e.running {
                        freed(h, f.buf)
                    } else {
                        Seq::<PlatformCall>::empty()
                    },
                    None => Seq::empty(),
                },
                None => Seq::empty(),
            },
            None => Seq::empty(),
        },
        s.unsubscribe_calls(h, id) == match entry_of(s, id) {
            Some(e) => match e.pump {
                Some(p) => match p.slot {
                    Some(f) => if !e.running && !p.alive {
                        freed(h, f.buf)
                    } else {
                        Seq::<PlatformCall>::empty()
                    },
                    None => Seq::empty(),
                },
                None => Seq::empty(),
            },
            None => Seq::empty(),
        },
        s.emitting() matches Some(f) ==> forall|index: u32| #[trigger]
            producer_calls(h, s, ProducerStep::Retired { index }) == freed(h, f.buf),
{
    assert(forall|b: u64| #[trigger] freed_all(h, seq![b]) == freed(h, b)) by {
        assert forall|b: u64| #[trigger] freed_all(h, seq![b]) == freed(h, b) by {
            lemma_freed_one(h, b);
        }
    }
    assert(freed_all(h, Seq::empty()) =~= Seq::<PlatformCall>::empty());
    lemma_index_of(s.subs, id);
}

} // verus!
