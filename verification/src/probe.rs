//! The smallest credible slice of the producer: a fixed pool of counters,
//! with no allocator behind it.

use vstd::prelude::*;

verus! {

/// How many handles there can be at a time.
pub const CAPACITY: usize = 64;

/// One place of the pool. Identity and counter stay readable after the place
/// was given back.
#[derive(Debug, Clone, Copy, PartialEq, Eq, Structural)]
pub struct Slot {
    pub live: bool,
    pub id: u64,
    pub counter: u64,
}

/// A handle; zero is null.
#[derive(Debug, Clone, Copy, PartialEq, Eq, Structural)]
pub struct AnHandle {
    pub addr: u64,
}

/// The pool.
pub struct Pool {
    pub slots: Vec<Slot>,
}

/// The first place that is free, or the length.
pub open spec fn first_free(s: Seq<Slot>) -> int
    decreases s.len(),
{
    if s.len() == 0 || !s[0].live {
        0
    } else {
        1 + first_free(s.drop_first())
    }
}

/// `first_free` is the least free index.
proof fn lemma_first_free(s: Seq<Slot>, i: int)
    requires
        0 <= i <= s.len(),
        forall|j: int| 0 <= j < i ==> (#[trigger] s[j]).live,
        i < s.len() ==> !s[i].live,
    ensures
        first_free(s) == i,
    decreases s.len(),
{
    if i > 0 {
        let t = s.drop_first();
        assert(s[0].live);
        assert forall|j: int| 0 <= j < i - 1 implies (#[trigger] t[j]).live by {
            assert(t[j] == s[j + 1]);
        }
        lemma_first_free(t, i - 1);
    }
}

impl Pool {
    /// The pool has its fixed size.
    pub open spec fn wf(self) -> bool {
        self.slots@.len() == CAPACITY
    }

    /// Whether `p` names a place.
    pub open spec fn names(self, p: AnHandle) -> bool {
        1 <= p.addr <= CAPACITY
    }

    /// The place that `p` names.
    pub open spec fn slot(self, p: AnHandle) -> Slot {
        self.slots@[p.addr - 1]
    }

    /// A pool whose places are all free.
    pub fn new() -> (r: Pool)
        ensures
            r.wf(),
            forall|i: int|
                0 <= i < CAPACITY ==> #[trigger] r.slots@[i] == (Slot {
                    live: false,
                    id: 0,
                    counter: 0,
                }),
    {
        let mut slots: Vec<Slot> = Vec::new();
        let mut i: usize = 0;
        while i < CAPACITY
            invariant
                i <= CAPACITY,
                slots@.len() == i,
                forall|j: int|
                    0 <= j < i ==> #[trigger] slots@[j] == (Slot {
                        live: false,
                        id: 0,
                        counter: 0,
                    }),
            decreases CAPACITY - i,
        {
            slots.push(Slot { live: false, id: 0, counter: 0 });
            i = i + 1;
        }
        Pool { slots }
    }

    /// The index of the place that `p` names.
    fn index(&self, p: AnHandle) -> (r: Option<usize>)
        requires
            self.wf(),
        ensures
            r == (if self.names(p) {
                Some((p.addr - 1) as usize)
            } else {
                None
            }),
    {
        if p.addr == 0 || p.addr > CAPACITY as u64 {
            None
        } else {
            Some((p.addr - 1) as usize)
        }
    }

    /// Claims the first free place; null once there is none.
    pub fn an_create(&mut self, id: u64) -> (r: AnHandle)
        requires
            old(self).wf(),
        ensures
            final(self).wf(),
            ({
                let i = first_free(old(self).slots@);
                if i < CAPACITY {
                    &&& r.addr == i + 1
                    &&& final(self).slots@ == old(self).slots@.update(
                        i,
                        Slot { live: true, id, counter: 0 },
                    )
                } else {
                    &&& r.addr == 0
                    &&& final(self).slots@ == old(self).slots@
                }
            }),
    {
        let mut i: usize = 0;
        while i < CAPACITY
            invariant
                self.slots@.len() == CAPACITY,
                i <= CAPACITY,
                *self == *old(self),
                forall|j: int| 0 <= j < i ==> (#[trigger] self.slots@[j]).live,
            decreases CAPACITY - i,
        {
            if !self.slots[i].live {
                proof {
                    lemma_first_free(self.slots@, i as int);
                }
                self.slots[i] = Slot { live: true, id, counter: 0 };
                return AnHandle { addr: i as u64 + 1 };
            }
            i = i + 1;
        }
        proof {
            lemma_first_free(self.slots@, CAPACITY as int);
        }
        AnHandle { addr: 0 }
    }

    /// Gives a place back; a handle that names none is ignored.
    pub fn an_destroy(&mut self, p: AnHandle)
        requires
            old(self).wf(),
        ensures
            final(self).wf(),
            final(self).slots@ == if old(self).names(p) {
                old(self).slots@.update(p.addr - 1, Slot { live: false, ..old(self).slot(p) })
            } else {
                old(self).slots@
            },
    {
        if let Some(i) = self.index(p) {
            self.slots[i].live = false;
        }
    }

    /// The identity, zero for a handle that names no place.
    pub fn an_id(&self, p: AnHandle) -> (r: u64)
        requires
            self.wf(),
        ensures
            r == (if self.names(p) {
                self.slot(p).id
            } else {
                0
            }),
    {
        match self.index(p) {
            Some(i) => self.slots[i].id,
            None => 0,
        }
    }

    /// The counter, zero for a handle that names no place.
    pub fn an_counter(&self, p: AnHandle) -> (r: u64)
        requires
            self.wf(),
        ensures
            r == (if self.names(p) {
                self.slot(p).counter
            } else {
                0
            }),
    {
        match self.index(p) {
            Some(i) => self.slots[i].counter,
            None => 0,
        }
    }

    /// Adds one to the counter, which wraps; a handle that names no place is
    /// ignored.
    pub fn an_increment(&mut self, p: AnHandle)
        requires
            old(self).wf(),
        ensures
            final(self).wf(),
            final(self).slots@ == if old(self).names(p) {
                old(self).slots@.update(
                    p.addr - 1,
                    Slot { counter: old(self).slot(p).counter.wrapping_add(1), ..old(self).slot(p) },
                )
            } else {
                old(self).slots@
            },
    {
        if let Some(i) = self.index(p) {
            self.slots[i].counter = self.slots[i].counter.wrapping_add(1);
        }
    }
}

/// A pool hands a place out exactly while one is free, and never the same
/// place twice: what `an_create` claims was free before.
pub proof fn law_claimed_place_was_free(s: Seq<Slot>)
    ensures
        0 <= first_free(s) <= s.len(),
        first_free(s) < s.len() ==> !s[first_free(s)].live,
        first_free(s) == s.len() <==> forall|i: int| 0 <= i < s.len() ==> (#[trigger] s[i]).live,
    decreases s.len(),
{
    if s.len() > 0 && s[0].live {
        let t = s.drop_first();
        law_claimed_place_was_free(t);
        if first_free(t) == t.len() {
            assert forall|i: int| 0 <= i < s.len() implies (#[trigger] s[i]).live by {
                if i > 0 {
                    assert(t[i - 1].live);
                }
            }
        } else if forall|i: int| 0 <= i < s.len() ==> (#[trigger] s[i]).live {
            assert(s[first_free(t) + 1].live);
        }
    }
}

/// What is claimed is the first place that is free, and a handle names the
/// place that was claimed for it.
pub proof fn law_first_free_place_is_claimed(p: Pool, s: Seq<Slot>, h: AnHandle, j: int)
    requires
        p.wf(),
    ensures
        0 <= j < first_free(s) ==> s[j].live,
        p.names(h) <==> 1 <= h.addr <= 64,
        p.names(h) ==> p.slot(h) == p.slots@[h.addr - 1],
    decreases s.len(),
{
    if s.len() > 0 && s[0].live && j > 0 {
        law_first_free_place_is_claimed(p, s.drop_first(), h, j - 1);
        law_claimed_place_was_free(s);
        if j < first_free(s) {
            assert(s.drop_first()[j - 1] == s[j]);
        }
    }
}

} // verus!
