//! Destroying a producer: a full teardown, step by step.

use vstd::prelude::*;
use crate::capturing::{cancelled, lemma_captures_update};
use crate::heap::{
    effect, freed, freed_all, lemma_freed_next, lemma_freed_one, lemma_transfer_same,
    lemma_transfer_trans, nothing, occurrences, one, transfer, Heap,
};
use crate::laws::{happens, Event};
use crate::lending::event_effect;
use crate::source::{
    lemma_index_of, lemma_subs_remove, lemma_subs_update, State, A,
};
use crate::storage::PlatformCall;
use crate::sub::{SubEntry, Teardown};
use crate::subscribe::{closed, lemma_entry_covered, lemma_same_held};

verus! {

/// Tearing down subscriptions one after the other: what is left when a step
/// has to wait, and for what.
pub open spec fn closing(s: Seq<SubEntry>) -> (Seq<SubEntry>, Teardown)
    decreases s.len(),
{
    if s.len() == 0 {
        (s, Teardown::Done)
    } else if closed(s[0]).waits_for() is Done {
        closing(s.drop_first())
    } else {
        (s.update(0, closed(s[0])), closed(s[0]).waits_for())
    }
}

/// The buffers that are left in the mailboxes of the subscriptions that such
/// a teardown gets to, in order.
pub open spec fn closing_bufs(s: Seq<SubEntry>) -> Seq<u64>
    decreases s.len(),
{
    if s.len() == 0 {
        Seq::empty()
    } else if closed(s[0]).waits_for() is Done {
        s[0].in_mailbox() + closing_bufs(s.drop_first())
    } else {
        Seq::empty()
    }
}

impl State {
    /// What a step of tearing the whole producer down asks of the platform.
    pub open spec fn destroy_calls(self, heap: Heap) -> Seq<PlatformCall> {
        if self.stream matches Some(p) && !p.finished() {
            Seq::empty()
        } else {
            freed_all(heap, closing_bufs(self.subs))
        }
    }

    /// What a teardown of the whole producer waits for: the stream, then each
    /// subscription, then each capture, those last that cannot be cancelled.
    pub open spec fn destroying(self) -> Teardown {
        if self.stream matches Some(p) && !p.finished() {
            Teardown::JoinStream
        } else if closing(self.subs).1 !is Done {
            closing(self.subs).1
        } else if self.captures.len() > 0 {
            Teardown::JoinCapture(self.captures[0].id)
        } else if self.jobs.len() > 0 {
            Teardown::JoinJob(self.jobs[0].id)
        } else {
            Teardown::Done
        }
    }

    /// The state after a step of that teardown.
    pub open spec fn destroyed(self) -> State {
        if self.stream matches Some(p) && !p.finished() {
            self
        } else if closing(self.subs).1 !is Done {
            State { stream: None, subs: closing(self.subs).0, ..self }
        } else if self.captures.len() > 0 {
            State {
                stream: None,
                subs: Seq::empty(),
                captures: self.captures.update(0, cancelled(self.captures[0])),
                ..self
            }
        } else {
            State { stream: None, subs: Seq::empty(), ..self }
        }
    }
}

impl A {
    /// A step of tearing the whole producer down. Called again until it says
    /// `Done`: then nothing is in flight and nothing will follow.
    pub fn destroy_step(&mut self, heap: &mut Heap) -> (r: Teardown)
        requires
            old(self)@.valid(*old(heap)),
        ensures
            r == old(self)@.destroying(),
            final(self)@ == old(self)@.destroyed(),
            r is Done ==> final(self)@.quiet(),
            final(self)@.valid(*final(heap)),
            happens(old(self)@, Event::Destroy, final(self)@),
            event_effect(*old(heap), old(self)@, Event::Destroy, *final(heap), final(self)@),
            effect(*old(heap), *final(heap), old(self)@.destroy_calls(*old(heap))),
            r !is JoinStream ==> forall|q: u64| #[trigger]
                final(heap).count(q) + occurrences(closing_bufs(old(self)@.subs), q) == old(
                    heap,
                ).count(q),
            transfer(*old(heap), *final(heap), old(self)@.held(), final(self)@.held()),
    {
        let ghost s0 = self@;
        let ghost h0 = *heap;
        if !self.stream_join() {
            return Teardown::JoinStream;
        }
        proof {
            lemma_transfer_same(
                h0,
                *heap,
                s0.held(),
                s0.held(),
                s0.held(),
                self@.held(),
            );
        }
        let ghost mut done: Seq<u64> = Seq::empty();
        assert(done + closing_bufs(self@.subs) =~= closing_bufs(s0.subs));
        assert(heap.calls@ =~= h0.calls@ + freed_all(h0, done));
        while self.subs.len() > 0
            invariant
                done + closing_bufs(self@.subs) == closing_bufs(s0.subs),
                effect(h0, *heap, freed_all(h0, done)),
                forall|q: u64| #[trigger] heap.count(q) + occurrences(done, q) == h0.count(q),
                self@.valid(*heap),
                self@ == (State { stream: None, subs: self@.subs, ..s0 }),
                closing(s0.subs) == closing(self@.subs),
                s0 == old(self)@,
                h0 == *old(heap),
                s0.stream matches Some(p) ==> p.finished(),
                transfer(h0, *heap, s0.held(), self@.held()),
            decreases self.subs@.len(),
        {
            let ghost s1 = self@;
            let ghost h1 = *heap;
            let id = self.subs[0].id;
            proof {
                lemma_index_of(s1.subs, id);
                assert(s1.subs[0].id == id);
            }
            let w = self.unsubscribe(heap, id);
            proof {
                lemma_transfer_trans(
                    h0,
                    h1,
                    *heap,
                    s0.held(),
                    s1.held(),
                    self@.held(),
                );
                assert(s1.subs.remove(0) =~= s1.subs.drop_first());
            }
            match w {
                Teardown::Done => {
                    proof {
                        let e = s1.subs[0];
                        assert(e.wf());
                        lemma_entry_covered(h1, s1, 0);
                        assert forall|q: u64| #[trigger]
                            heap.count(q) + e.held()(q) == h1.count(q) by {
                            lemma_subs_remove(s1.subs, 0, q);
                            assert(heap.count(q) + s1.held()(q) == h1.count(q) + self@.held()(
                                q,
                            ));
                        }
                        lemma_mailbox_freed(h0, h1, *heap, s1.subs[0], done);
                        assert(done + (s1.subs[0].in_mailbox() + closing_bufs(self@.subs))
                            =~= done + s1.subs[0].in_mailbox() + closing_bufs(self@.subs));
                        done = done + s1.subs[0].in_mailbox();
                    }
                },
                _ => {
                    proof {
                        assert(done + closing_bufs(s1.subs) =~= done);
                        assert forall|q: u64| #[trigger] heap.count(q) == h1.count(q) by {
                            lemma_subs_update(s1.subs, 0, closed(s1.subs[0]), q);
                            assert(heap.count(q) + s1.held()(q) == h1.count(q) + self@.held()(
                                q,
                            ));
                        }
                        assert(heap.calls@ =~= h0.calls@ + freed_all(h0, done));
                    }
                    return w;
                },
            }
        }
        assert(self.subs@ =~= Seq::empty());
        assert(done + closing_bufs(self@.subs) =~= done);
        if self.captures.len() > 0 {
            let ghost s1 = self@;
            self.captures[0].listed = false;
            self.captures[0].cancelled = true;
            proof {
                assert(self@ =~= s0.destroyed());
                lemma_captures_update(s1, self@, 0);
                lemma_same_held(s1, self@);
                lemma_transfer_same(
                    h0,
                    *heap,
                    s0.held(),
                    s1.held(),
                    s0.held(),
                    self@.held(),
                );
            }
            return Teardown::JoinCapture(self.captures[0].id);
        }
        if self.jobs.len() > 0 {
            return Teardown::JoinJob(self.jobs[0].id);
        }
        Teardown::Done
    }

    /// Gives up a producer that was torn down, and its payload with it.
    pub fn release(self, heap: &mut Heap)
        requires
            self@.valid(*old(heap)),
            self@.quiet(),
        ensures
            final(heap).wf(),
            final(heap).count(self@.payload) + 1 == old(heap).count(self@.payload),
            effect(*old(heap), *final(heap), freed(*old(heap), self@.payload)),
            transfer(*old(heap), *final(heap), self@.held(), nothing()),
    {
        let ghost s0 = self@;
        let ghost h0 = *heap;
        assert(self@.held()(self.payload) <= heap.count(self.payload));
        heap.release(self.payload);
        proof {
            lemma_transfer_same(
                h0,
                *heap,
                one(s0.payload),
                nothing(),
                s0.held(),
                nothing(),
            );
        }
    }
}

/// Tearing one more subscription down drops the reference that is left in its
/// mailbox.
proof fn lemma_mailbox_freed(h0: Heap, h1: Heap, h2: Heap, e: SubEntry, done: Seq<u64>)
    requires
        effect(h0, h1, freed_all(h0, done)),
        forall|q: u64| #[trigger] h1.count(q) + occurrences(done, q) == h0.count(q),
        effect(h1, h2, freed_all(h1, e.in_mailbox())),
        h1.covers(e.held()),
        e.wf(),
        !e.running,
        forall|q: u64| #[trigger] h2.count(q) + e.held()(q) == h1.count(q),
    ensures
        effect(h0, h2, freed_all(h0, done + e.in_mailbox())),
        forall|q: u64| #[trigger]
            h2.count(q) + occurrences(done + e.in_mailbox(), q) == h0.count(q),
{
    let m = e.in_mailbox();
    if m.len() == 0 {
        lemma_freed_one(h1, 0);
        assert(m =~= Seq::<u64>::empty());
        assert(done + m =~= done);
        assert(h2.calls@ =~= h1.calls@);
    } else {
        let p = m[0];
        assert(m =~= seq![p]);
        assert(done + m =~= done.push(p));
        assert(e.held()(p) <= h1.count(p));
        lemma_freed_one(h1, p);
        lemma_freed_next(h0, h1, done, p);
        assert(h2.calls@ =~= h0.calls@ + (freed_all(h0, done) + freed(h1, p)));
    }
    assert forall|q: u64| #[trigger]
        h2.count(q) + occurrences(done + m, q) == h0.count(q) by {
        assert(h1.count(q) + occurrences(done, q) == h0.count(q));
        assert(h2.count(q) + e.held()(q) == h1.count(q));
        if m.len() > 0 {
            assert(occurrences(done.push(m[0]), q) == occurrences(done, q) + one(m[0])(q));
        }
    }
    assert forall|q: u64| h0.live(q) && #[trigger] h2.live(q) implies h2.storage(q)
        == h0.storage(q) by {
        assert(h2.count(q) + e.held()(q) == h1.count(q));
        assert(h1.live(q));
    }
}

} // verus!
