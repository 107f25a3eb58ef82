//! Closures that back subscriptions made across the boundary.
//!
//! A closure must outlive its subscription. Identifiers are given out per
//! producer, so an entry is known by its producer's handle and its
//! identifier together.

use vstd::prelude::*;

verus! {

/// One closure: whose subscription it backs, and its name.
#[derive(Debug, Clone, Copy, PartialEq, Eq, Structural)]
pub struct SubPtr {
    pub handle: u64,
    pub id: u64,
    pub cb: u64,
}

/// The closures that are kept alive.
pub struct Registry {
    pub subs: Vec<SubPtr>,
}

/// Where the first entry for `handle` and `id` stands; the length if nowhere.
pub open spec fn first_entry(s: Seq<SubPtr>, handle: u64, id: u64) -> int
    decreases s.len(),
{
    if s.len() == 0 || (s[0].handle == handle && s[0].id == id) {
        0
    } else {
        1 + first_entry(s.drop_first(), handle, id)
    }
}

/// The entries of other producers than `handle`, in order.
pub open spec fn others(s: Seq<SubPtr>, handle: u64) -> Seq<SubPtr> {
    s.filter(|e: SubPtr| e.handle != handle)
}

/// The closures of `handle`, in order.
pub open spec fn closures_of(s: Seq<SubPtr>, handle: u64) -> Seq<u64>
    decreases s.len(),
{
    if s.len() == 0 {
        Seq::empty()
    } else if s.last().handle == handle {
        closures_of(s.drop_last(), handle).push(s.last().cb)
    } else {
        closures_of(s.drop_last(), handle)
    }
}

/// `first_entry` is the least index with that handle and identifier.
proof fn lemma_first_entry(s: Seq<SubPtr>, handle: u64, id: u64, i: int)
    requires
        0 <= i <= s.len(),
        forall|j: int|
            0 <= j < i ==> !((#[trigger] s[j]).handle == handle && s[j].id == id),
        i < s.len() ==> s[i].handle == handle && s[i].id == id,
    ensures
        first_entry(s, handle, id) == i,
    decreases s.len(),
{
    if i > 0 {
        let t = s.drop_first();
        assert(!(s[0].handle == handle && s[0].id == id));
        assert forall|j: int| 0 <= j < i - 1 implies !((#[trigger] t[j]).handle == handle && t[j].id
            == id) by {
            assert(t[j] == s[j + 1]);
        }
        lemma_first_entry(t, handle, id, i - 1);
    }
}

impl Registry {
    /// No closures.
    pub fn new() -> (r: Registry)
        ensures
            r.subs@ == Seq::<SubPtr>::empty(),
    {
        Registry { subs: Vec::new() }
    }

    /// Keeps a closure for a subscription.
    pub fn remember(&mut self, handle: u64, id: u64, cb: u64)
        ensures
            final(self).subs@ == old(self).subs@.push(SubPtr { handle, id, cb }),
    {
        self.subs.push(SubPtr { handle, id, cb });
    }

    /// Lets go of the closure of one subscription: it is returned, to be
    /// freed. To be called once that subscription's teardown is done.
    pub fn forget_registry_entry(&mut self, handle: u64, id: u64) -> (r: Option<u64>)
        ensures
            ({
                let i = first_entry(old(self).subs@, handle, id);
                if i < old(self).subs@.len() {
                    &&& r == Some(old(self).subs@[i].cb)
                    &&& old(self).subs@[i].handle == handle
                    &&& old(self).subs@[i].id == id
                    &&& final(self).subs@ == old(self).subs@.remove(i)
                } else {
                    &&& r is None
                    &&& final(self).subs@ == old(self).subs@
                }
            }),
    {
        let n = self.subs.len();
        let mut i: usize = 0;
        while i < n
            invariant
                n == self.subs@.len(),
                i <= n,
                *self == *old(self),
                forall|j: int|
                    0 <= j < i ==> !((#[trigger] self.subs@[j]).handle == handle && self.subs@[j].id
                        == id),
            decreases n - i,
        {
            if self.subs[i].handle == handle && self.subs[i].id == id {
                proof {
                    lemma_first_entry(self.subs@, handle, id, i as int);
                }
                let e = self.subs.remove(i);
                return Some(e.cb);
            }
            i = i + 1;
        }
        proof {
            lemma_first_entry(self.subs@, handle, id, n as int);
        }
        None
    }

    /// Lets go of all closures of a producer that was destroyed; they are
    /// returned, to be freed.
    pub fn forget_handle(&mut self, handle: u64) -> (r: Vec<u64>)
        ensures
            r@ == closures_of(old(self).subs@, handle),
            final(self).subs@ == others(old(self).subs@, handle),
    {
        let n = self.subs.len();
        let mut kept: Vec<SubPtr> = Vec::new();
        let mut freed: Vec<u64> = Vec::new();
        let mut i: usize = 0;
        while i < n
            invariant
                n == self.subs@.len(),
                i <= n,
                *self == *old(self),
                kept@ == others(self.subs@.take(i as int), handle),
                freed@ == closures_of(self.subs@.take(i as int), handle),
            decreases n - i,
        {
            proof {
                let t = self.subs@.take(i + 1);
                assert(t.drop_last() =~= self.subs@.take(i as int));
                reveal(Seq::filter);
            }
            let e = self.subs[i];
            if e.handle == handle {
                freed.push(e.cb);
            } else {
                kept.push(e);
            }
            i = i + 1;
        }
        assert(self.subs@.take(n as int) =~= self.subs@);
        self.subs = kept;
        freed
    }
}

/// The closures of all entries, in order.
pub open spec fn closures(s: Seq<SubPtr>) -> Seq<u64> {
    s.map_values(|e: SubPtr| e.cb)
}

/// Destroying a producer frees exactly its closures: each closure is either
/// kept or freed, as often as it was remembered, and none that is kept
/// belongs to it.
pub proof fn law_every_closure_is_kept_or_freed(s: Seq<SubPtr>, handle: u64)
    ensures
        closures_of(s, handle).to_multiset().add(closures(others(s, handle)).to_multiset())
            == closures(s).to_multiset(),
        forall|i: int|
            0 <= i < others(s, handle).len() ==> (#[trigger] others(s, handle)[i]).handle != handle,
    decreases s.len(),
{
    broadcast use vstd::seq_lib::group_to_multiset_ensures;

    reveal(Seq::filter);
    if s.len() > 0 {
        let t = s.drop_last();
        let e = s.last();
        law_every_closure_is_kept_or_freed(t, handle);
        assert(closures(s) =~= closures(t).push(e.cb));
        if e.handle != handle {
            assert(closures(others(s, handle)) =~= closures(others(t, handle)).push(e.cb));
        }
        assert(closures_of(s, handle).to_multiset().add(closures(others(s, handle)).to_multiset())
            =~= closures(s).to_multiset());
    } else {
        assert(closures_of(s, handle).to_multiset().add(closures(others(s, handle)).to_multiset())
            =~= closures(s).to_multiset());
    }
}

/// Unsubscribing frees a closure of that subscription alone: an entry of
/// another producer stays, though it has the same identifier.
pub proof fn law_forgetting_keeps_other_producers(s: Seq<SubPtr>, handle: u64, id: u64, e: SubPtr)
    requires
        e.handle != handle,
        s.contains(e),
        first_entry(s, handle, id) < s.len(),
    ensures
        s.remove(first_entry(s, handle, id)).contains(e),
{
    let i = first_entry(s, handle, id);
    lemma_first_entry_hits(s, handle, id);
    let k = choose|k: int| 0 <= k < s.len() && s[k] == e;
    let t = s.remove(i);
    if k < i {
        assert(t[k] == e);
    } else {
        assert(t[k - 1] == e);
    }
}

/// Where `first_entry` points at an entry, it is one for that subscription.
proof fn lemma_first_entry_hits(s: Seq<SubPtr>, handle: u64, id: u64)
    ensures
        0 <= first_entry(s, handle, id) <= s.len(),
        first_entry(s, handle, id) < s.len() ==> s[first_entry(s, handle, id)].handle == handle,
    decreases s.len(),
{
    if s.len() > 0 && !(s[0].handle == handle && s[0].id == id) {
        lemma_first_entry_hits(s.drop_first(), handle, id);
    }
}

/// A closure that was kept for a subscription is the one that is let go of
/// for it, unless one was kept for the same subscription before; nothing is
/// let go of for a subscription that has none.
pub proof fn law_remembered_closure_is_forgotten(s: Seq<SubPtr>, handle: u64, id: u64, cb: u64)
    requires
        forall|j: int|
            0 <= j < s.len() ==> !((#[trigger] s[j]).handle == handle && s[j].id == id),
    ensures
        first_entry(s, handle, id) == s.len(),
        first_entry(s.push(SubPtr { handle, id, cb }), handle, id) == s.len(),
        s.push(SubPtr { handle, id, cb }).remove(s.len() as int) == s,
{
    let t = s.push(SubPtr { handle, id, cb });
    lemma_first_entry(s, handle, id, s.len() as int);
    lemma_first_entry(t, handle, id, s.len() as int);
    assert(t.remove(s.len() as int) =~= s);
}

/// What is let go of for a subscription is what was kept for it first.
pub proof fn law_oldest_closure_is_forgotten(s: Seq<SubPtr>, handle: u64, id: u64, j: int)
    ensures
        0 <= first_entry(s, handle, id) <= s.len(),
        first_entry(s, handle, id) < s.len() ==> s[first_entry(s, handle, id)].handle == handle
            && s[first_entry(s, handle, id)].id == id,
        0 <= j < first_entry(s, handle, id) ==> !(s[j].handle == handle && s[j].id == id),
    decreases s.len(),
{
    if s.len() > 0 && !(s[0].handle == handle && s[0].id == id) {
        law_oldest_closure_is_forgotten(s.drop_first(), handle, id, j - 1);
        if 0 < j < first_entry(s, handle, id) {
            assert(s.drop_first()[j - 1] == s[j]);
        }
    }
}

/// The closures of a producer come in the order in which they were kept.
pub proof fn law_closures_in_order(a: Seq<SubPtr>, b: Seq<SubPtr>, e: SubPtr, handle: u64)
    ensures
        closures_of(a + b, handle) == closures_of(a, handle) + closures_of(b, handle),
        closures_of(seq![e], handle) == if e.handle == handle {
            seq![e.cb]
        } else {
            Seq::<u64>::empty()
        },
    decreases b.len(),
{
    reveal_with_fuel(closures_of, 2);
    assert(seq![e].drop_last() =~= Seq::<SubPtr>::empty());
    if e.handle == handle {
        assert(closures_of(seq![e], handle) =~= seq![e.cb]);
    }
    if b.len() > 0 {
        law_closures_in_order(a, b.drop_last(), e, handle);
        assert((a + b).drop_last() =~= a + b.drop_last());
        assert((a + b).last() == b.last());
    } else {
        assert(a + b =~= a);
    }
    assert(closures_of(a + b, handle) =~= closures_of(a, handle) + closures_of(b, handle));
}

} // verus!
