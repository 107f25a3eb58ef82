//! Subscribing to a producer, and the pumps behind mailboxes.

use vstd::prelude::*;
use crate::abi::{A_DELIVERY_BLOCKING, A_DELIVERY_LATEST};
use crate::heap::{
    both, effect, freed, freed_all, lemma_transfer_same, nothing, transfer, Heap,
};
use crate::laws::{happens, Event};
use crate::lending::event_effect;
use crate::storage::PlatformCall;
use crate::source::{
    index_of, lemma_covers, lemma_index_of, lemma_lift, lemma_subs_member, lemma_subs_remove,
    lemma_subs_update, subs_refs, Producer, State, A,
};
use crate::sub::{pump_refs, Pump, PumpStep, SubCb, SubEntry, Teardown};

verus! {

/// A new subscription.
pub open spec fn new_sub(id: u64, cb: SubCb, policy: u32) -> SubEntry {
    SubEntry {
        id,
        active: true,
        running: false,
        listed: true,
        cb,
        pump: if policy == A_DELIVERY_LATEST {
            Some(Pump { slot: None, current: None, dropped: 0, alive: true })
        } else {
            None
        },
    }
}

/// A subscription whose teardown has begun.
pub open spec fn closed(e: SubEntry) -> SubEntry {
    SubEntry { active: false, listed: false, ..e }
}

impl State {
    /// The state after the subscription with this callback was added.
    pub open spec fn subscribed(self, cb: SubCb, policy: u32) -> State {
        let id = (self.next_sub + 1) as u64;
        State { next_sub: id, subs: self.subs.push(new_sub(id, cb, policy)), ..self }
    }

    /// Frames that subscription `id` missed.
    pub open spec fn dropped(self, id: u64) -> u64 {
        let i = index_of(self.subs, id);
        if i >= 0 && self.subs[i].listed && self.subs[i].pump is Some {
            self.subs[i].pump->Some_0.dropped
        } else {
            0
        }
    }

    /// What the teardown of subscription `id` waits for.
    pub open spec fn teardown(self, id: u64) -> Teardown {
        let i = index_of(self.subs, id);
        if i < 0 {
            Teardown::Done
        } else {
            closed(self.subs[i]).waits_for()
        }
    }

    /// The state after a step of that teardown: the subscription gets no
    /// further frame, and is gone once nothing of it is in flight.
    pub open spec fn unsubscribed(self, id: u64) -> State {
        let i = index_of(self.subs, id);
        if i < 0 {
            self
        } else if closed(self.subs[i]).waits_for() is Done {
            State { subs: self.subs.remove(i), ..self }
        } else {
            State { subs: self.subs.update(i, closed(self.subs[i])), ..self }
        }
    }

    /// What that step asks of the platform: a frame that is left in the
    /// mailbox goes.
    pub open spec fn unsubscribe_calls(self, heap: Heap, id: u64) -> Seq<PlatformCall> {
        let i = index_of(self.subs, id);
        if i >= 0 && self.teardown(id) is Done {
            freed_all(heap, self.subs[i].in_mailbox())
        } else {
            Seq::empty()
        }
    }

    /// Whether a call for subscription `id` is in flight.
    pub open spec fn in_call(self, id: u64) -> bool {
        let i = index_of(self.subs, id);
        i >= 0 && self.subs[i].running
    }

    /// The state after that call has returned.
    pub open spec fn returned(self, id: u64) -> State {
        let i = index_of(self.subs, id);
        State {
            subs: self.subs.update(i, self.subs[i].finished()),
            stream: if self.calling(id) {
                Some(Producer { calling: None, ..self.stream->Some_0 })
            } else {
                self.stream
            },
            ..self
        }
    }

    /// What that asks of the platform: a pump lets go of its frame.
    pub open spec fn return_calls(self, heap: Heap, id: u64) -> Seq<PlatformCall> {
        if self.in_call(id) {
            freed_all(heap, self.subs[index_of(self.subs, id)].in_pump())
        } else {
            Seq::empty()
        }
    }

    /// What the pump of subscription `id` is to do.
    pub open spec fn pump_step(self, id: u64) -> PumpStep {
        let i = index_of(self.subs, id);
        if i < 0 {
            PumpStep::Exit
        } else {
            self.subs[i].pump_step()
        }
    }

    /// The state after that step.
    pub open spec fn pumped(self, id: u64) -> State {
        let i = index_of(self.subs, id);
        if i < 0 {
            self
        } else {
            State { subs: self.subs.update(i, self.subs[i].pumped()), ..self }
        }
    }

    /// What that step asks of the platform: a frame that is not delivered
    /// goes.
    pub open spec fn pump_calls(self, heap: Heap, id: u64) -> Seq<PlatformCall> {
        match self.pump_step(id) {
            PumpStep::Skipped => freed(
                heap,
                self.subs[index_of(self.subs, id)].pump->Some_0.slot->Some_0.buf,
            ),
            _ => Seq::empty(),
        }
    }

    /// Whether one more reference to the frame in the mailbox of `id` can be
    /// counted.
    pub open spec fn pump_room(self, heap: Heap, id: u64) -> bool {
        let i = index_of(self.subs, id);
        i >= 0 ==> (self.subs[i].pump matches Some(p) ==> (p.slot matches Some(f) ==> heap.room(
            f.buf,
        )))
    }

    /// Whether one more reference to the frame in hand can be counted.
    pub open spec fn emit_room(self, heap: Heap) -> bool {
        self.emitting() matches Some(f) ==> heap.room(f.buf)
    }
}

/// States that hold the same references are counted by the same heaps.
pub proof fn lemma_same_held(s0: State, s1: State)
    requires
        forall|q: u64| #[trigger] s1.held()(q) == s0.held()(q),
        s1.wf(),
    ensures
        forall|h: Heap| s0.valid(h) ==> #[trigger] s1.valid(h),
{
    assert forall|h: Heap| s0.valid(h) implies #[trigger] s1.valid(h) by {
        assert forall|q: u64| #[trigger] s1.held()(q) <= h.count(q) by {
            assert(s0.held()(q) <= h.count(q));
        }
    }
}

/// An entry's references are counted where its producer's are.
pub proof fn lemma_entry_covered(h: Heap, s: State, i: int)
    requires
        h.covers(s.held()),
        0 <= i < s.subs.len(),
    ensures
        h.covers(s.subs[i].held()),
{
    let e = s.subs[i].held();
    assert forall|q: u64| #[trigger] e(q) <= h.count(q) by {
        assert(s.held()(q) <= h.count(q));
        lemma_subs_member(s.subs, i, q);
    }
}

/// Replacing an entry by one with the same identifier keeps every position.
pub proof fn lemma_index_update(s: Seq<SubEntry>, i: int, e: SubEntry, id: u64)
    requires
        0 <= i < s.len(),
        e.id == s[i].id,
    ensures
        index_of(s.update(i, e), id) == index_of(s, id),
    decreases s.len(),
{
    let t = s.update(i, e);
    if i == s.len() - 1 {
        assert(t.drop_last() =~= s.drop_last());
    } else {
        assert(t.drop_last() =~= s.drop_last().update(i, e));
        assert(t.last() == s.last());
        if s.last().id != id {
            lemma_index_update(s.drop_last(), i, e, id);
        }
    }
}

/// Replacing the entry at `i` by `e`, whose call, if the producer makes it,
/// is in flight as the stream says, keeps the producer well-formed.
pub proof fn lemma_wf_update(s0: State, s1: State, i: int, e: SubEntry)
    requires
        s0.wf(),
        0 <= i < s0.subs.len(),
        s1.subs == s0.subs.update(i, e),
        e.id == s0.subs[i].id,
        e.wf(),
        e.pump is None <==> s0.subs[i].pump is None,
        s1.captures == s0.captures,
        s1.next_sub == s0.next_sub,
        s1.jobs == s0.jobs,
        s1.next_job == s0.next_job,
        s1.pending.no_duplicates(),
        forall|k: int| 0 <= k < s1.pending.len() ==> #[trigger] s1.pending[k] <= s1.next_sub,
        s1.stream matches Some(p) ==> p.wf(s1.pending),
        s1.stream is None ==> s1.pending.len() == 0,
        e.pump is None ==> (e.running <==> s1.calling(e.id)),
        forall|id: u64| id != e.id ==> s1.calling(id) == s0.calling(id),
        e.pump is Some ==> s1.calling(e.id) == s0.calling(e.id),
    ensures
        s1.wf(),
{
    assert forall|k: int, l: int| 0 <= k < l < s1.subs.len() implies (#[trigger] s1.subs[k]).id
        != (#[trigger] s1.subs[l]).id by {
        assert(s0.subs[k].id != s0.subs[l].id);
    }
    assert forall|k: int| 0 <= k < s1.subs.len() implies (#[trigger] s1.subs[k]).wf() && 1
        <= s1.subs[k].id <= s1.next_sub by {
        assert(s0.subs[k].wf());
    }
    assert forall|k: int| 0 <= k < s1.subs.len() && (#[trigger] s1.subs[k]).pump is None implies (
    s1.subs[k].running <==> s1.calling(s1.subs[k].id)) by {
        if k != i {
            assert(s0.subs[k].pump is None);
            assert(s0.subs[k].id != s0.subs[i].id);
        }
    }
    if s1.stream is Some && s1.stream->Some_0.calling is Some {
        let id = s1.stream->Some_0.calling->Some_0;
        assert(s1.calling(id));
        lemma_index_of(s0.subs, e.id);
        lemma_index_of(s1.subs, id);
        lemma_index_update(s0.subs, i, e, id);
        if id == e.id {
            assert(index_of(s0.subs, id) == i);
        } else {
            assert(s0.calling(id));
        }
    }
}

/// Removing an entry that is in no call keeps the producer well-formed.
pub proof fn lemma_wf_remove(s0: State, s1: State, i: int)
    requires
        s0.wf(),
        0 <= i < s0.subs.len(),
        !s0.subs[i].running,
        s1 == (State { subs: s0.subs.remove(i), ..s0 }),
    ensures
        s1.wf(),
{
    assert forall|k: int|
        0 <= k < s1.subs.len() implies s1.subs[k] == s0.subs[if k < i { k } else { k + 1 }] by {}
    assert forall|k: int, l: int| 0 <= k < l < s1.subs.len() implies (#[trigger] s1.subs[k]).id
        != (#[trigger] s1.subs[l]).id by {
        let a = if k < i { k } else { k + 1 };
        let b = if l < i { l } else { l + 1 };
        assert(s0.subs[a].id != s0.subs[b].id);
    }
    if s1.stream is Some && s1.stream->Some_0.calling is Some {
        let id = s1.stream->Some_0.calling->Some_0;
        lemma_index_of(s0.subs, id);
        lemma_index_of(s1.subs, id);
        let k = index_of(s0.subs, id);
        assert(s0.calling(id));
        assert(s0.subs[k].running);
        let m = if k < i { k } else { k - 1 };
        assert(s1.subs[m] == s0.subs[k]);
    }
}

impl A {
    /// Where the subscription `id` stands.
    pub(crate) fn find(&self, id: u64) -> (r: Option<usize>)
        ensures
            r matches Some(i) ==> i < self.subs@.len() && i == index_of(self.subs@, id),
            r is None ==> index_of(self.subs@, id) < 0,
    {
        let n = self.subs.len();
        let mut i: usize = n;
        assert(self.subs@.take(n as int) =~= self.subs@);
        while i > 0
            invariant
                n == self.subs@.len(),
                i <= n,
                index_of(self.subs@, id) == index_of(self.subs@.take(i as int), id),
            decreases i,
        {
            assert(self.subs@.take(i as int).drop_last() =~= self.subs@.take(i - 1));
            if self.subs[i - 1].id == id {
                return Some(i - 1);
            }
            i = i - 1;
        }
        None
    }

    /// Adds a subscription under the next identifier. For one with a mailbox
    /// the caller starts a thread that follows `pump_step`.
    pub fn add_sub(&mut self, cb: SubCb, policy: u32) -> (r: u64)
        requires
            old(self)@.wf(),
            old(self)@.next_sub < u64::MAX,
        ensures
            r == old(self)@.next_sub + 1,
            final(self)@ == old(self)@.subscribed(cb, policy),
            final(self)@.wf(),
            happens(old(self)@, Event::Subscribe { cb, policy }, final(self)@),
            forall|h: Heap| old(self)@.valid(h) ==> #[trigger] final(self)@.valid(h),
            forall|q: u64| #[trigger] final(self)@.held()(q) == old(self)@.held()(q),
    {
        let ghost s0 = self@;
        self.next_sub = self.next_sub + 1;
        let id = self.next_sub;
        let pump = if policy == A_DELIVERY_LATEST {
            Some(Pump { slot: None, current: None, dropped: 0, alive: true })
        } else {
            None
        };
        self.subs.push(SubEntry { id, active: true, running: false, listed: true, cb, pump });
        proof {
            let e = new_sub(id, cb, policy);
            assert(self.subs@.drop_last() =~= s0.subs);
            assert forall|q: u64| #[trigger] self@.held()(q) == s0.held()(q) by {
                assert(subs_refs(self.subs@, q) == subs_refs(s0.subs, q) + e.held()(q));
            }
            assert forall|k: int| 0 <= k < self.subs@.len() && (#[trigger] self.subs@[k]).pump
                is None implies (self.subs@[k].running <==> self@.calling(self.subs@[k].id)) by {
                if k < s0.subs.len() {
                    assert(s0.subs[k].pump is None);
                } else if self@.calling(id) {
                    lemma_index_of(s0.subs, id);
                    assert(s0.calling(id));
                }
            }
            assert forall|k: int, l: int|
                0 <= k < l < self.subs@.len() implies (#[trigger] self.subs@[k]).id != (
            #[trigger] self.subs@[l]).id by {
                assert(s0.subs[k].wf());
            }
            if self@.stream is Some && self@.stream->Some_0.calling is Some {
                lemma_index_of(s0.subs, self@.stream->Some_0.calling->Some_0);
            }
            lemma_same_held(s0, self@);
        }
        id
    }

    /// Subscribes a closure, called on the producer's thread with a reference
    /// of its own.
    pub fn subscribe(&mut self, f: u64) -> (r: u64)
        requires
            old(self)@.wf(),
            old(self)@.next_sub < u64::MAX,
        ensures
            r == old(self)@.next_sub + 1,
            final(self)@ == old(self)@.subscribed(SubCb::Rust(f), A_DELIVERY_BLOCKING),
            final(self)@.wf(),
            happens(
                old(self)@,
                Event::Subscribe { cb: SubCb::Rust(f), policy: A_DELIVERY_BLOCKING },
                final(self)@,
            ),
            forall|h: Heap| old(self)@.valid(h) ==> #[trigger] final(self)@.valid(h),
            forall|q: u64| #[trigger] final(self)@.held()(q) == old(self)@.held()(q),
    {
        self.subscribe_with(f, A_DELIVERY_BLOCKING)
    }

    /// Subscribes a closure with a delivery policy. A policy that this build
    /// does not know is taken as blocking.
    pub fn subscribe_with(&mut self, f: u64, policy: u32) -> (r: u64)
        requires
            old(self)@.wf(),
            old(self)@.next_sub < u64::MAX,
        ensures
            r == old(self)@.next_sub + 1,
            final(self)@ == old(self)@.subscribed(SubCb::Rust(f), policy),
            final(self)@.wf(),
            happens(
                old(self)@,
                Event::Subscribe { cb: SubCb::Rust(f), policy },
                final(self)@,
            ),
            forall|h: Heap| old(self)@.valid(h) ==> #[trigger] final(self)@.valid(h),
            forall|q: u64| #[trigger] final(self)@.held()(q) == old(self)@.held()(q),
    {
        self.add_sub(SubCb::Rust(f), policy)
    }

    /// Subscribes a function with its context; it borrows each frame.
    pub fn subscribe_c(&mut self, cb: u64, user: u64, policy: u32) -> (r: u64)
        requires
            old(self)@.wf(),
            old(self)@.next_sub < u64::MAX,
        ensures
            r == old(self)@.next_sub + 1,
            final(self)@ == old(self)@.subscribed(SubCb::C { cb, user }, policy),
            final(self)@.wf(),
            happens(
                old(self)@,
                Event::Subscribe { cb: SubCb::C { cb, user }, policy },
                final(self)@,
            ),
            forall|h: Heap| old(self)@.valid(h) ==> #[trigger] final(self)@.valid(h),
            forall|q: u64| #[trigger] final(self)@.held()(q) == old(self)@.held()(q),
    {
        self.add_sub(SubCb::C { cb, user }, policy)
    }

    /// Frames that subscription `id` missed because a newer one replaced
    /// them; zero for one without mailbox, and for an unknown one.
    pub fn dropped(&self, id: u64) -> (r: u64)
        ensures
            r == self@.dropped(id),
    {
        match self.find(id) {
            Some(i) => if self.subs[i].listed {
                self.subs[i].dropped()
            } else {
                0
            },
            None => 0,
        }
    }

    /// Removes a subscription. Called again until it says `Done`: then no
    /// call is in flight and none will follow. An unknown identifier is done
    /// at once.
    pub fn unsubscribe(&mut self, heap: &mut Heap, id: u64) -> (r: Teardown)
        requires
            old(self)@.valid(*old(heap)),
        ensures
            r == old(self)@.teardown(id),
            final(self)@ == old(self)@.unsubscribed(id),
            final(self)@.valid(*final(heap)),
            happens(old(self)@, Event::Unsubscribe { id }, final(self)@),
            event_effect(
                *old(heap),
                old(self)@,
                Event::Unsubscribe { id },
                *final(heap),
                final(self)@,
            ),
            r is Done ==> index_of(final(self)@.subs, id) < 0,
            effect(*old(heap), *final(heap), old(self)@.unsubscribe_calls(*old(heap), id)),
            transfer(*old(heap), *final(heap), old(self)@.held(), final(self)@.held()),
    {
        let ghost s0 = self@;
        let ghost h0 = *heap;
        let found = self.find(id);
        if found.is_none() {
            return Teardown::Done;
        }
        let i = found.unwrap();
        self.subs[i].active = false;
        self.subs[i].listed = false;
        let r = self.subs[i].teardown();
        proof {
            lemma_index_of(s0.subs, id);
            assert(self.subs@ =~= s0.subs.update(i as int, closed(s0.subs[i as int])));
            assert(s0.subs[i as int].wf());
            assert(s0.subs[i as int].held() == closed(s0.subs[i as int]).held());
        }
        match r {
            Teardown::Done => {
                let e = self.subs.remove(i);
                proof {
                    assert(self.subs@ =~= s0.subs.remove(i as int));
                    lemma_entry_covered(h0, s0, i as int);
                }
                e.discard(heap);
                proof {
                    lemma_gone(h0, *heap, s0, self@, i as int);
                    lemma_index_of(self@.subs, id);
                    if index_of(self@.subs, id) >= 0 {
                        let k = index_of(self@.subs, id);
                        if k < i {
                            assert(self@.subs[k] == s0.subs[k]);
                        } else {
                            assert(self@.subs[k] == s0.subs[k + 1]);
                        }
                    }
                }
            },
            _ => {
                proof {
                    let e = closed(s0.subs[i as int]);
                    lemma_wf_update(s0, self@, i as int, e);
                    assert forall|q: u64| #[trigger] self@.held()(q) == s0.held()(q) by {
                        lemma_subs_update(s0.subs, i as int, e, q);
                    }
                    lemma_same_held(s0, self@);
                }
            },
        }
        r
    }

    /// The call for subscription `id` has returned. Says whether one was in
    /// flight.
    pub fn finish_invoke(&mut self, heap: &mut Heap, id: u64) -> (r: bool)
        requires
            old(self)@.valid(*old(heap)),
        ensures
            r == old(self)@.in_call(id),
            final(self)@ == if r {
                old(self)@.returned(id)
            } else {
                old(self)@
            },
            final(self)@.valid(*final(heap)),
            r ==> happens(old(self)@, Event::Return { id }, final(self)@),
            event_effect(*old(heap), old(self)@, Event::Return { id }, *final(heap), final(self)@),
            effect(*old(heap), *final(heap), old(self)@.return_calls(*old(heap), id)),
            transfer(*old(heap), *final(heap), old(self)@.held(), final(self)@.held()),
    {
        let ghost s0 = self@;
        let ghost h0 = *heap;
        let found = self.find(id);
        if found.is_none() {
            return false;
        }
        let i = found.unwrap();
        if !self.subs[i].running {
            return false;
        }
        proof {
            lemma_index_of(s0.subs, id);
            lemma_entry_covered(h0, s0, i as int);
        }
        self.subs[i].finish(heap);
        if let Some(p) = self.stream.as_mut() {
            if let Some(c) = p.calling {
                if c == id {
                    p.calling = None;
                }
            }
        }
        proof {
            let e = s0.subs[i as int].finished();
            assert(self.subs@ =~= s0.subs.update(i as int, e));
            assert(self@ =~= s0.returned(id));
            assert(s0.subs[i as int].wf());
            lemma_wf_update(s0, self@, i as int, e);
            assert(transfer(h0, *heap, s0.subs[i as int].held(), both(e.held(), nothing()))) by {
                lemma_transfer_same(
                    h0,
                    *heap,
                    s0.subs[i as int].held(),
                    e.held(),
                    s0.subs[i as int].held(),
                    both(e.held(), nothing()),
                );
            }
            lemma_lift(h0, *heap, s0, self@, i as int, nothing());
            lemma_covers(h0, *heap, s0.held(), self@.held(), nothing());
            lemma_transfer_same(
                h0,
                *heap,
                s0.held(),
                both(self@.held(), nothing()),
                s0.held(),
                self@.held(),
            );
        }
        true
    }

    /// Whether `pump_step` can count the reference that it may hand out.
    pub fn can_pump(&self, heap: &Heap, id: u64) -> (r: bool)
        ensures
            r == self@.pump_room(*heap, id),
    {
        match self.find(id) {
            Some(i) => match &self.subs[i].pump {
                Some(p) => match &p.slot {
                    Some(f) => heap.ref_count(f.buf) < usize::MAX,
                    None => true,
                },
                None => true,
            },
            None => true,
        }
    }

    /// The next step of the pump of subscription `id`.
    pub fn pump_step(&mut self, heap: &mut Heap, id: u64) -> (r: PumpStep)
        requires
            old(self)@.valid(*old(heap)),
            old(self)@.pump_room(*old(heap), id),
        ensures
            r == old(self)@.pump_step(id),
            final(self)@ == old(self)@.pumped(id),
            final(self)@.valid(*final(heap)),
            happens(old(self)@, Event::Pump { id }, final(self)@),
            event_effect(*old(heap), old(self)@, Event::Pump { id }, *final(heap), final(self)@),
            effect(*old(heap), *final(heap), old(self)@.pump_calls(*old(heap), id)),
            transfer(
                *old(heap),
                *final(heap),
                old(self)@.held(),
                both(final(self)@.held(), pump_refs(r)),
            ),
    {
        let ghost s0 = self@;
        let ghost h0 = *heap;
        let found = self.find(id);
        if found.is_none() {
            return PumpStep::Exit;
        }
        let i = found.unwrap();
        proof {
            lemma_index_of(s0.subs, id);
            lemma_entry_covered(h0, s0, i as int);
            assert(s0.subs[i as int].wf());
        }
        let r = self.subs[i].next_pump_step(heap);
        proof {
            let e = s0.subs[i as int].pumped();
            assert(self.subs@ =~= s0.subs.update(i as int, e));
            assert(self@ =~= s0.pumped(id));
            lemma_wf_update(s0, self@, i as int, e);
            lemma_lift(h0, *heap, s0, self@, i as int, pump_refs(r));
            lemma_covers(h0, *heap, s0.held(), self@.held(), pump_refs(r));
        }
        r
    }
}

/// Removing an entry whose references were given up.
pub proof fn lemma_gone(h0: Heap, h1: Heap, s0: State, s1: State, i: int)
    requires
        s0.valid(h0),
        h1.wf(),
        0 <= i < s0.subs.len(),
        !s0.subs[i].running,
        s1 == (State { subs: s0.subs.remove(i), ..s0 }),
        transfer(h0, h1, s0.subs[i].held(), nothing()),
    ensures
        transfer(h0, h1, s0.held(), s1.held()),
        s1.valid(h1),
{
    let e = s0.subs[i].held();
    assert forall|q: u64| #[trigger] h1.count(q) + s0.held()(q) == h0.count(q) + s1.held()(q) by {
        lemma_subs_remove(s0.subs, i, q);
        assert(h1.count(q) + e(q) == h0.count(q) + nothing()(q));
    }
    assert forall|q: u64| h0.count(q) > s0.held()(q) implies #[trigger] h1.storage(q)
        == h0.storage(q) by {
        lemma_subs_member(s0.subs, i, q);
        assert(h0.count(q) > e(q));
    }
    assert forall|q: u64| #[trigger] s1.held()(q) <= h1.count(q) by {
        assert(s0.held()(q) <= h0.count(q));
        assert(h1.count(q) + s0.held()(q) == h0.count(q) + s1.held()(q));
    }
    lemma_wf_remove(s0, s1, i);
}

} // verus!
