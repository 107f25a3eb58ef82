//! The C entry points of the producer library, over opaque handles.
//!
//! A `Liba` is one loaded library: its heap and the producers behind its
//! handles. Handle zero is null. Callers own what an entry point hands out
//! and pass it back; the library's own references are those of its
//! producers.

use vstd::prelude::*;
use crate::abi::{
    status_code, status_of_code, status_text, ABuf, ABufView, ABufViewMut, AFrameDescV1,
    AFrameDescV2, AFrameInfoV1, AHandle, ASharedV1, AStatus, A_DELIVERY_BLOCKING,
};
use crate::capture::{capture_refs, CaptureEntry, CaptureJob, CaptureStep};
use crate::capturing::{cancelled, captured};
use crate::frame::{exported2, Frame};
use crate::heap::{
    both, effect, frame_geometry, freed, freed_all, lemma_freed_next, lemma_transfer_same,
    made_storage, nothing, one, transfer, Heap, Holding, FRAME_LEN,
};
use crate::laws::{happens, Event};
use crate::lending::event_effect;
use crate::rt::{panic_text, recorded, Hook, LastError};
use crate::source::{
    capture_index, filled, frame_stored, fresh_payload, new_state, new_window, producer_refs,
    storage_answer, stored, Producer, ProducerStep, State, A,
};
use crate::storage::{bracket, exported, Access, Platform, PlatformCall};
use crate::streaming::{frame_seed, producer_effect, produces};
use crate::sub::{pump_refs, PumpStep, SubCb, Teardown};
use crate::teardown::closing_bufs;

verus! {

/// One loaded library.
pub struct Liba {
    pub heap: Heap,
    pub objs: Vec<Option<A>>,
}

/// References to `q` that the producers hold.
pub open spec fn objs_refs(objs: Seq<Option<A>>, q: u64) -> nat
    decreases objs.len(),
{
    if objs.len() == 0 {
        0
    } else {
        objs_refs(objs.drop_last(), q) + match objs.last() {
            Some(a) => a@.held()(q),
            None => 0,
        }
    }
}

/// References to `q` that one place holds.
pub open spec fn obj_refs(o: Option<A>, q: u64) -> nat {
    match o {
        Some(a) => a@.held()(q),
        None => 0,
    }
}

/// The first producers hold no more than all of them.
pub proof fn lemma_objs_prefix(objs: Seq<Option<A>>, n: int, q: u64)
    requires
        0 <= n <= objs.len(),
    ensures
        objs_refs(objs.take(n), q) <= objs_refs(objs, q),
    decreases objs.len(),
{
    if n == objs.len() {
        assert(objs.take(n) =~= objs);
    } else {
        lemma_objs_prefix(objs.drop_last(), n, q);
        assert(objs.drop_last().take(n) =~= objs.take(n));
    }
}

/// Replacing a producer changes the references by what the two hold.
pub proof fn lemma_objs_update(objs: Seq<Option<A>>, i: int, o: Option<A>, q: u64)
    requires
        0 <= i < objs.len(),
    ensures
        objs_refs(objs.update(i, o), q) + obj_refs(objs[i], q) == objs_refs(objs, q) + obj_refs(
            o,
            q,
        ),
        obj_refs(objs[i], q) <= objs_refs(objs, q),
    decreases objs.len(),
{
    if i == objs.len() - 1 {
        assert(objs.update(i, o).drop_last() =~= objs.drop_last());
    } else {
        lemma_objs_update(objs.drop_last(), i, o, q);
        assert(objs.update(i, o).drop_last() =~= objs.drop_last().update(i, o));
    }
}

impl Liba {
    /// Whether `p` is the handle of a producer.
    pub open spec fn live(self, p: AHandle) -> bool {
        1 <= p.addr <= self.objs@.len() && self.objs@[p.addr - 1] is Some
    }

    /// The producer behind `p`.
    pub open spec fn state(self, p: AHandle) -> State {
        self.objs@[p.addr - 1]->Some_0@
    }

    /// The references that the library's producers hold.
    pub open spec fn held(self) -> Holding {
        |q: u64| objs_refs(self.objs@, q)
    }

    /// Every producer is well-formed and every reference is counted.
    pub open spec fn valid(self) -> bool {
        &&& self.heap.wf()
        &&& self.heap.covers(self.held())
        &&& forall|i: int|
            0 <= i < self.objs@.len() && (#[trigger] self.objs@[i]) is Some
                ==> self.objs@[i]->Some_0@.wf()
    }

    /// Whether only the producer behind `p` may have changed.
    pub open spec fn only(self, post: Liba, p: AHandle) -> bool {
        &&& post.live(p)
        &&& forall|h: AHandle| #[trigger] post.live(h) <==> self.live(h)
        &&& forall|h: AHandle| h != p && self.live(h) ==> #[trigger] post.state(h) == self.state(h)
    }

    /// Where the payload of `p` is seen.
    pub open spec fn payload_view(self, p: AHandle) -> ABufView {
        ABufView { ptr: self.state(p).payload, len: FRAME_LEN }
    }

    /// Where the buffer `b` is seen.
    pub open spec fn buf_view(self, b: ABuf) -> ABufView {
        ABufView { ptr: b.addr, len: FRAME_LEN }
    }

    /// Whether `b` was handed out as a snapshot of the payload of `p`.
    pub open spec fn snapshot(self, post: Liba, p: AHandle, b: ABuf) -> bool {
        &&& b.addr == self.state(p).payload
        &&& post.state(p) == self.state(p)
        &&& post.heap.count(b.addr) == self.heap.count(b.addr) + 1
        &&& effect(self.heap, post.heap, Seq::empty())
        &&& self.step(post, p, one(b.addr))
    }

    /// Whether an entry point on `p` is the operation `ev` of its producer.
    pub open spec fn does(self, post: Liba, p: AHandle, ev: Event) -> bool {
        &&& happens(self.state(p), ev, post.state(p))
        &&& event_effect(self.heap, self.state(p), ev, post.heap, post.state(p))
    }

    /// Whether an entry point on `p` kept the library valid and the others
    /// as they were, and handed out the references in `out`: every count
    /// follows what the producer behind `p` holds.
    pub open spec fn step(self, post: Liba, p: AHandle, out: Holding) -> bool {
        &&& post.valid()
        &&& self.only(post, p)
        &&& transfer(
            self.heap,
            post.heap,
            self.state(p).held(),
            both(post.state(p).held(), out),
        )
        &&& transfer(self.heap, post.heap, self.held(), both(post.held(), out))
    }
}

/// A step of one producer is a step of its library.
pub proof fn lemma_obj_step(pre: Liba, post: Liba, p: AHandle, out: Holding)
    requires
        pre.valid(),
        pre.live(p),
        post.heap.wf(),
        post.objs@.len() == pre.objs@.len(),
        post.objs@ == pre.objs@.update(p.addr - 1, post.objs@[p.addr - 1]),
        post.objs@[p.addr - 1] is Some,
        post.state(p).wf(),
        transfer(pre.heap, post.heap, pre.state(p).held(), both(post.state(p).held(), out)),
    ensures
        pre.step(post, p, out),
{
    let i = p.addr - 1;
    let e0 = pre.state(p).held();
    let e1 = both(post.state(p).held(), out);
    assert forall|q: u64| #[trigger]
        post.heap.count(q) + pre.held()(q) == pre.heap.count(q) + both(post.held(), out)(q) by {
        lemma_objs_update(pre.objs@, i, post.objs@[i], q);
        assert(post.heap.count(q) + e0(q) == pre.heap.count(q) + e1(q));
    }
    assert forall|q: u64| pre.heap.count(q) > pre.held()(q) implies #[trigger] post.heap.storage(
        q,
    ) == pre.heap.storage(q) by {
        lemma_objs_update(pre.objs@, i, post.objs@[i], q);
        assert(pre.heap.count(q) > e0(q));
    }
    crate::source::lemma_covers(pre.heap, post.heap, pre.held(), post.held(), out);
    assert forall|k: int| 0 <= k < post.objs@.len() && (#[trigger] post.objs@[k]) is Some implies
        post.objs@[k]->Some_0@.wf() by {
        if k != i {
            assert(pre.objs@[k] is Some);
        }
    }
    assert forall|h: AHandle| h != p && pre.live(h) implies #[trigger] post.state(h) == pre.state(
        h,
    ) by {
        assert(h.addr != p.addr);
    }
}

/// The references of one producer are counted where its library's are.
pub proof fn lemma_obj_valid(l: Liba, p: AHandle)
    requires
        l.valid(),
        l.live(p),
    ensures
        l.state(p).valid(l.heap),
{
    let i = p.addr - 1;
    assert(l.objs@[i] is Some);
    assert forall|q: u64| #[trigger] l.state(p).held()(q) <= l.heap.count(q) by {
        lemma_objs_update(l.objs@, i, l.objs@[i], q);
        assert(l.held()(q) <= l.heap.count(q));
    }
}

/// A step that says nothing of further references hands out none.
pub proof fn lemma_no_out(h0: Heap, h1: Heap, m0: Holding, m1: Holding)
    requires
        transfer(h0, h1, m0, m1),
    ensures
        transfer(h0, h1, m0, both(m1, nothing())),
{
    lemma_transfer_same(h0, h1, m0, m1, m0, both(m1, nothing()));
}

/// What a shielded entry point leaves as the detail of the last failure: the
/// status's text for an error, and what the panic hook wrote for a panic.
pub open spec fn detail(before: Option<Seq<char>>, outcome: Option<AStatus>) -> Option<Seq<char>> {
    match outcome {
        Some(s) => if s == AStatus::Okay {
            before
        } else {
            Some(recorded(status_text(s)))
        },
        None => before,
    }
}

/// The wire code of a shielded entry point: no outcome means that its body
/// panicked.
pub open spec fn shielded(outcome: Option<AStatus>) -> int {
    match outcome {
        Some(s) => status_code(s),
        None => status_code(AStatus::Panic),
    }
}

/// The wire code of a fallible operation.
pub open spec fn result_code(r: Result<(), AStatus>) -> int {
    match r {
        Ok(()) => 0,
        Err(e) => status_code(e),
    }
}

/// The detail that a fallible operation leaves.
pub open spec fn result_detail(before: Option<Seq<char>>, r: Result<(), AStatus>) -> Option<
    Seq<char>,
> {
    match r {
        Ok(()) => before,
        Err(e) => detail(before, Some(e)),
    }
}

/// Turns the outcome of an entry point's body into its wire code, and
/// records the detail.
pub fn shield(err: &mut LastError, outcome: Option<AStatus>) -> (r: i32)
    ensures
        r == shielded(outcome),
        final(err)@ == detail(old(err)@, outcome),
{
    match outcome {
        Some(s) => {
            match s {
                AStatus::Okay => {},
                _ => err.set(s.text()),
            }
            s.code()
        },
        None => AStatus::Panic.code(),
    }
}

/// What the entry point that proves the shield panics with.
pub const TEST_PANIC: &'static str = "deliberate internal panic for shield validation";

/// The entry point that proves the shield: its body panics at `place`, the
/// hook records that, and the caller gets a code.
pub fn a_test_panic(err: &mut LastError, hook: &Hook, place: (&str, u32)) -> (r: i32)
    ensures
        r == status_code(AStatus::Panic),
        final(err)@ == Some(
            recorded(panic_text(Some((place.0@, place.1)), Some(TEST_PANIC@))),
        ),
{
    let _ = hook.on_panic(err, Some(place), Some(TEST_PANIC));
    shield(err, None)
}

/// The detail of the calling thread's last failure, none if it has not
/// failed.
pub fn a_last_error_message(err: &LastError) -> (r: Option<&str>)
    ensures
        match r {
            Some(s) => err@ == Some(s@),
            None => err@ is None,
        },
{
    err.last()
}

impl Liba {
    /// A freshly loaded library.
    pub fn new(platform: Platform) -> (r: Liba)
        ensures
            r.valid(),
            forall|p: AHandle| !#[trigger] r.live(p),
            forall|q: u64| #[trigger] r.heap.count(q) == 0,
            r.heap.supply.platform == platform,
            r.heap.supply.grants@.len() == 0,
            r.heap.calls@.len() == 0,
    {
        Liba { heap: Heap::new(platform), objs: Vec::new() }
    }

    /// Where the producer behind `p` stands.
    pub(crate) fn slot(&self, p: AHandle) -> (i: usize)
        requires
            self.live(p),
        ensures
            i == p.addr - 1,
            i < self.objs@.len(),
    {
        let n = self.objs.len();
        assert(p.addr <= n);
        (p.addr - 1) as usize
    }

    /// The producer behind `p`.
    pub(crate) fn obj(&self, p: AHandle) -> (r: &A)
        requires
            self.live(p),
        ensures
            r@ == self.state(p),
    {
        let i = self.slot(p);
        self.objs[i].as_ref().unwrap()
    }

    /// Whether `p` is the handle of a producer.
    pub fn is_live(&self, p: AHandle) -> (r: bool)
        ensures
            r == self.live(p),
    {
        if p.addr == 0 || p.addr > self.objs.len() as u64 {
            return false;
        }
        self.objs[(p.addr - 1) as usize].is_some()
    }

    /// Creates a producer; the caller owns the handle.
    pub fn a_create(&mut self, id: u64) -> (p: AHandle)
        requires
            old(self).valid(),
        ensures
            p.addr != 0,
            !old(self).live(p),
            final(self).live(p),
            new_window(final(self).state(p).shared, id),
            final(self).state(p) == new_state(
                final(self).state(p).shared,
                final(self).state(p).payload,
            ),
            fresh_payload(old(self).heap, final(self).heap, final(self).state(p).payload),
            forall|h: AHandle| h != p ==> (#[trigger] final(self).live(h) <==> old(self).live(h)),
            forall|h: AHandle|
                old(self).live(h) ==> #[trigger] final(self).state(h) == old(self).state(h),
            final(self).valid(),
            transfer(old(self).heap, final(self).heap, nothing(), final(self).state(p).held()),
            transfer(old(self).heap, final(self).heap, old(self).held(), final(self).held()),
    {
        let ghost pre = *self;
        let a = A::new(&mut self.heap, id);
        let ghost s = a@;
        self.objs.push(Some(a));
        proof {
            assert(self.objs@.drop_last() =~= pre.objs@);
            assert forall|q: u64| #[trigger]
                self.heap.count(q) + pre.held()(q) == pre.heap.count(q) + self.held()(q) by {
                assert(objs_refs(self.objs@, q) == objs_refs(pre.objs@, q) + s.held()(q));
                assert(self.heap.count(q) + nothing()(q) == pre.heap.count(q) + s.held()(q));
            }
            assert forall|q: u64| pre.heap.count(q) > pre.held()(q) implies #[trigger] self.heap.storage(
                q,
            ) == pre.heap.storage(q) by {
                assert(pre.heap.count(q) > nothing()(q));
            }
            assert forall|q: u64| #[trigger] self.held()(q) <= self.heap.count(q) by {
                assert(pre.held()(q) <= pre.heap.count(q));
                assert(self.heap.count(q) + pre.held()(q) == pre.heap.count(q) + self.held()(q));
            }
        }
        AHandle { addr: self.objs.len() as u64 }
    }

    /// Destroys the producer behind `p`; null is ignored. Called again until
    /// it says `Done`: then nothing is in flight, and the handle is dead.
    pub fn a_destroy(&mut self, p: AHandle) -> (r: Teardown)
        requires
            old(self).valid(),
            p.addr == 0 || old(self).live(p),
        ensures
            r == (if p.addr == 0 {
                Teardown::Done
            } else {
                old(self).state(p).destroying()
            }),
            p.addr == 0 ==> *final(self) == *old(self),
            p.addr != 0 && r is Done ==> !final(self).live(p),
            p.addr != 0 && r !is Done ==> final(self).live(p) && final(self).state(p) == old(
                self,
            ).state(p).destroyed(),
            forall|h: AHandle| h != p ==> (#[trigger] final(self).live(h) <==> old(self).live(h)),
            forall|h: AHandle|
                h != p && old(self).live(h) ==> #[trigger] final(self).state(h) == old(self).state(
                    h,
                ),
            final(self).valid(),
            p.addr != 0 ==> effect(
                old(self).heap,
                final(self).heap,
                if r is Done {
                    freed_all(
                        old(self).heap,
                        closing_bufs(old(self).state(p).subs).push(old(self).state(p).payload),
                    )
                } else {
                    old(self).state(p).destroy_calls(old(self).heap)
                },
            ),
            p.addr != 0 ==> transfer(
                old(self).heap,
                final(self).heap,
                old(self).state(p).held(),
                if r is Done {
                    nothing()
                } else {
                    final(self).state(p).held()
                },
            ),
            transfer(old(self).heap, final(self).heap, old(self).held(), final(self).held()),
    {
        if p.addr == 0 {
            return Teardown::Done;
        }
        let ghost pre = *self;
        proof {
            lemma_obj_valid(pre, p);
        }
        let i = self.slot(p);
        let mut r = Teardown::Done;
        let mut taken: Option<A> = None;
        core::mem::swap(&mut taken, &mut self.objs[i]);
        let ghost mut s1 = pre.state(p);
        let ghost mut h1 = self.heap;
        if let Some(a) = taken {
            let mut a = a;
            r = a.destroy_step(&mut self.heap);
            proof {
                s1 = a@;
                h1 = self.heap;
            }
            match r {
                Teardown::Done => {
                    proof {
                        let buf = pre.state(p).payload;
                        assert(s1.held()(buf) <= h1.count(buf));
                        lemma_freed_next(pre.heap, h1, closing_bufs(pre.state(p).subs), buf);
                    }
                    a.release(&mut self.heap);
                    assert(self.heap.calls@ =~= pre.heap.calls@ + (freed_all(
                        pre.heap,
                        closing_bufs(pre.state(p).subs),
                    ) + freed(h1, pre.state(p).payload)));
                },
                _ => {
                    self.objs[i] = Some(a);
                },
            }
        }
        proof {
            let gone = r is Done;
            if gone {
                crate::heap::lemma_transfer_trans(
                    pre.heap,
                    h1,
                    self.heap,
                    pre.state(p).held(),
                    s1.held(),
                    nothing(),
                );
            }
            let m1 = if gone {
                nothing()
            } else {
                s1.held()
            };
            assert(transfer(pre.heap, self.heap, pre.state(p).held(), m1));
            assert(self.objs@ =~= pre.objs@.update(i as int, self.objs@[i as int]));
            assert forall|q: u64| #[trigger]
                self.heap.count(q) + pre.held()(q) == pre.heap.count(q) + self.held()(q) by {
                lemma_objs_update(pre.objs@, i as int, self.objs@[i as int], q);
                assert(self.heap.count(q) + pre.state(p).held()(q) == pre.heap.count(q) + m1(q));
            }
            assert forall|q: u64| pre.heap.count(q) > pre.held()(q) implies #[trigger] self.heap.storage(
                q,
            ) == pre.heap.storage(q) by {
                lemma_objs_update(pre.objs@, i as int, self.objs@[i as int], q);
                assert(pre.heap.count(q) > pre.state(p).held()(q));
            }
            assert forall|q: u64| #[trigger] self.held()(q) <= self.heap.count(q) by {
                assert(pre.held()(q) <= pre.heap.count(q));
                assert(self.heap.count(q) + pre.held()(q) == pre.heap.count(q) + self.held()(q));
            }
            assert forall|k: int|
                0 <= k < self.objs@.len() && (#[trigger] self.objs@[k]) is Some implies
                self.objs@[k]->Some_0@.wf() by {
                if k != i {
                    assert(pre.objs@[k] is Some);
                }
            }
        }
        r
    }
}

impl Liba {
    /// The identity.
    pub fn a_id(&self, p: AHandle) -> (r: u64)
        requires
            self.live(p),
        ensures
            r == self.state(p).shared.id,
    {
        self.obj(p).id()
    }

    /// The counter.
    pub fn a_counter(&self, p: AHandle) -> (r: u64)
        requires
            self.live(p),
        ensures
            r == self.state(p).shared.counter,
    {
        self.obj(p).counter()
    }

    /// The scale, in its IEEE 754 encoding.
    pub fn a_scale(&self, p: AHandle) -> (r: u64)
        requires
            self.live(p),
        ensures
            r == self.state(p).shared.scale_bits,
    {
        self.obj(p).scale()
    }

    /// The window with the public fields.
    pub fn a_shared(&self, p: AHandle) -> (r: &ASharedV1)
        requires
            self.live(p),
        ensures
            *r == self.state(p).shared,
    {
        self.obj(p).shared()
    }

    /// The size of a producer, for diagnostics.
    pub fn a_impl_size() -> (r: usize)
        ensures
            r == vstd::layout::size_of::<A>(),
    {
        A::impl_size()
    }

    /// A borrowed view of the payload, until the next change of the producer.
    pub fn a_data(&self, p: AHandle) -> (r: ABufView)
        requires
            self.valid(),
            self.live(p),
        ensures
            r == self.payload_view(p),
    {
        proof {
            lemma_obj_valid(*self, p);
        }
        let a = self.obj(p);
        let d = a.data(&self.heap);
        ABufView { ptr: a.payload, len: d.len() }
    }

    /// The storage kind of emitted frames.
    pub fn a_frame_storage(&self, p: AHandle) -> (r: u32)
        requires
            self.live(p),
        ensures
            r == self.state(p).frame_kind,
    {
        self.obj(p).frame_storage()
    }

    /// Frames that subscription `id` missed.
    pub fn a_sub_dropped(&self, p: AHandle, id: u64) -> (r: u64)
        requires
            self.live(p),
        ensures
            r == self.state(p).dropped(id),
    {
        self.obj(p).dropped(id)
    }

    /// Adds one to the counter.
    pub fn a_increment(&mut self, p: AHandle)
        requires
            old(self).valid(),
            old(self).live(p),
            old(self).state(p).shared.counter < u64::MAX,
        ensures
            final(self).state(p) == (State {
                shared: ASharedV1 {
                    counter: (old(self).state(p).shared.counter + 1) as u64,
                    ..old(self).state(p).shared
                },
                ..old(self).state(p)
            }),
            final(self).heap == old(self).heap,
            old(self).does(*final(self), p, Event::Increment),
            old(self).step(*final(self), p, nothing()),
    {
        let ghost pre = *self;
        proof {
            lemma_obj_valid(pre, p);
        }
        let i = self.slot(p);
        if let Some(a) = self.objs[i].as_mut() {
            a.increment();
        }
        proof {
            lemma_still(pre, *self, p);
        }
    }

    /// Refills the payload.
    pub fn a_fill(&mut self, p: AHandle, seed: u8)
        requires
            old(self).valid(),
            old(self).live(p),
        ensures
            final(self).state(p) == (State {
                payload: final(self).state(p).payload,
                ..old(self).state(p)
            }),
            filled(
                old(self).heap,
                final(self).heap,
                old(self).state(p).payload,
                final(self).state(p).payload,
                seed,
            ),
            old(self).does(*final(self), p, Event::Fill { seed }),
            old(self).step(*final(self), p, nothing()),
    {
        let ghost pre = *self;
        proof {
            lemma_obj_valid(pre, p);
        }
        let i = self.slot(p);
        if let Some(a) = self.objs[i].as_mut() {
            a.fill(&mut self.heap, seed);
        }
        proof {
            lemma_no_out(pre.heap, self.heap, pre.state(p).held(), self.state(p).held());
            lemma_obj_step(pre, *self, p, nothing());
        }
    }

    /// Refills the payload; seed zero is refused.
    pub fn a_try_fill(&mut self, err: &mut LastError, p: AHandle, seed: u8) -> (r: i32)
        requires
            old(self).valid(),
            old(self).live(p),
        ensures
            r == (if seed == 0 {
                status_code(AStatus::InvalidArgument)
            } else {
                0
            }),
            final(err)@ == detail(
                old(err)@,
                Some(
                    if seed == 0 {
                        AStatus::InvalidArgument
                    } else {
                        AStatus::Okay
                    },
                ),
            ),
            seed == 0 ==> final(self).state(p) == old(self).state(p) && final(self).heap == old(
                self,
            ).heap,
            seed != 0 ==> {
                &&& final(self).state(p) == (State {
                    payload: final(self).state(p).payload,
                    ..old(self).state(p)
                })
                &&& filled(
                    old(self).heap,
                    final(self).heap,
                    old(self).state(p).payload,
                    final(self).state(p).payload,
                    seed,
                )
            },
            r == 0 ==> old(self).does(*final(self), p, Event::Fill { seed }),
            old(self).step(*final(self), p, nothing()),
    {
        let ghost pre = *self;
        proof {
            lemma_obj_valid(pre, p);
        }
        let i = self.slot(p);
        let mut res: Result<(), AStatus> = Ok(());
        if let Some(a) = self.objs[i].as_mut() {
            res = a.try_fill(&mut self.heap, seed);
        }
        proof {
            lemma_no_out(pre.heap, self.heap, pre.state(p).held(), self.state(p).held());
            lemma_obj_step(pre, *self, p, nothing());
        }
        shield(err, Some(AStatus::of_result(res)))
    }

    /// Copies the payload's first bytes into `out`, as many as fit, and says
    /// how many. Without a buffer, or with an empty one, nothing happens.
    pub fn a_copy_data(&mut self, p: AHandle, out: Option<&mut [u8]>) -> (n: usize)
        requires
            old(self).valid(),
            old(self).live(p),
        ensures
            match out {
                None => n == 0 && final(self).heap == old(self).heap,
                Some(o) => {
                    &&& n == (if o@.len() < FRAME_LEN {
                        o@.len()
                    } else {
                        FRAME_LEN as nat
                    })
                    &&& final(o)@ == old(self).heap.bytes_at(old(self).state(p).payload).take(
                        n as int,
                    ) + o@.skip(n as int)
                    &&& o@.len() == 0 ==> final(self).heap == old(self).heap
                    &&& o@.len() > 0 ==> final(self).heap.calls@ == old(self).heap.calls@
                        + bracket(
                        old(self).heap.storage(old(self).state(p).payload),
                        Access::Read,
                        Seq::empty(),
                    )
                },
            },
            final(self).heap.slots == old(self).heap.slots,
            final(self).heap.supply == old(self).heap.supply,
            final(self).state(p) == old(self).state(p),
            old(self).step(*final(self), p, nothing()),
    {
        let ghost pre = *self;
        proof {
            lemma_obj_valid(pre, p);
        }
        let mut n: usize = 0;
        if let Some(o) = out {
            if o.len() > 0 {
                let i = self.slot(p);
                if let Some(a) = self.objs[i].as_ref() {
                    n = a.copy_data(&mut self.heap, o);
                }
            } else {
                assert(o@ =~= pre.heap.bytes_at(pre.state(p).payload).take(0) + o@.skip(0));
            }
        }
        proof {
            assert(self.objs@ =~= pre.objs@.update(p.addr - 1, self.objs@[p.addr - 1]));
            assert(transfer(pre.heap, self.heap, pre.state(p).held(), pre.state(p).held()));
            lemma_no_out(pre.heap, self.heap, pre.state(p).held(), pre.state(p).held());
            lemma_obj_step(pre, *self, p, nothing());
        }
        n
    }

    /// A snapshot of the payload; the caller owns one reference.
    pub fn a_frame(&mut self, p: AHandle) -> (b: ABuf)
        requires
            old(self).valid(),
            old(self).live(p),
            old(self).heap.room(old(self).state(p).payload),
        ensures
            old(self).snapshot(*final(self), p, b),
    {
        let ghost pre = *self;
        proof {
            lemma_obj_valid(pre, p);
        }
        let i = self.slot(p);
        let mut b = ABuf { addr: 0 };
        if let Some(a) = self.objs[i].as_ref() {
            b = a.frame(&mut self.heap).into_raw();
        }
        proof {
            assert(self.objs@ =~= pre.objs@.update(p.addr - 1, self.objs@[p.addr - 1]));
            lemma_handed_out(pre, *self, p, one(b.addr));
        }
        b
    }

    /// Moves the payload into storage of another kind.
    pub fn a_set_storage(&mut self, err: &mut LastError, p: AHandle, kind: u32) -> (r: i32)
        requires
            old(self).valid(),
            old(self).live(p),
        ensures
            r == result_code(storage_answer(old(self).heap.supply, kind, FRAME_LEN as int)),
            final(err)@ == result_detail(
                old(err)@,
                storage_answer(old(self).heap.supply, kind, FRAME_LEN as int),
            ),
            stored(
                old(self).heap,
                final(self).heap,
                old(self).state(p),
                final(self).state(p),
                kind,
            ),
            old(self).does(*final(self), p, Event::Store { kind }),
            old(self).step(*final(self), p, nothing()),
    {
        let ghost pre = *self;
        proof {
            lemma_obj_valid(pre, p);
        }
        let i = self.slot(p);
        let mut res: Result<(), AStatus> = Ok(());
        if let Some(a) = self.objs[i].as_mut() {
            res = a.set_storage(&mut self.heap, kind);
        }
        proof {
            lemma_no_out(pre.heap, self.heap, pre.state(p).held(), self.state(p).held());
            lemma_obj_step(pre, *self, p, nothing());
        }
        shield(err, Some(AStatus::of_result(res)))
    }

    /// Selects the storage kind of emitted frames.
    pub fn a_set_frame_storage(&mut self, err: &mut LastError, p: AHandle, kind: u32) -> (r: i32)
        requires
            old(self).valid(),
            old(self).live(p),
        ensures
            r == result_code(storage_answer(old(self).heap.supply, kind, 1)),
            final(err)@ == result_detail(
                old(err)@,
                storage_answer(old(self).heap.supply, kind, 1),
            ),
            frame_stored(
                old(self).heap,
                final(self).heap,
                old(self).state(p),
                final(self).state(p),
                kind,
            ),
            old(self).does(*final(self), p, Event::FrameStore { kind }),
            old(self).step(*final(self), p, nothing()),
    {
        let ghost pre = *self;
        proof {
            lemma_obj_valid(pre, p);
        }
        let i = self.slot(p);
        let mut res: Result<(), AStatus> = Ok(());
        if let Some(a) = self.objs[i].as_mut() {
            res = a.set_frame_storage(&mut self.heap, kind);
        }
        proof {
            assert(transfer(pre.heap, self.heap, pre.state(p).held(), pre.state(p).held()));
            lemma_transfer_same(
                pre.heap,
                self.heap,
                pre.state(p).held(),
                pre.state(p).held(),
                pre.state(p).held(),
                both(self.state(p).held(), nothing()),
            );
            lemma_obj_step(pre, *self, p, nothing());
        }
        shield(err, Some(AStatus::of_result(res)))
    }

    /// Subscribes a function with its context; delivery is blocking.
    pub fn a_subscribe(&mut self, p: AHandle, cb: u64, user: u64) -> (r: u64)
        requires
            old(self).valid(),
            old(self).live(p),
            old(self).state(p).next_sub < u64::MAX,
        ensures
            r == old(self).state(p).next_sub + 1,
            final(self).state(p) == old(self).state(p).subscribed(
                SubCb::C { cb, user },
                A_DELIVERY_BLOCKING,
            ),
            final(self).heap == old(self).heap,
            old(self).does(
                *final(self),
                p,
                Event::Subscribe { cb: SubCb::C { cb, user }, policy: A_DELIVERY_BLOCKING },
            ),
            old(self).step(*final(self), p, nothing()),
    {
        self.a_subscribe_with(p, cb, user, A_DELIVERY_BLOCKING)
    }

    /// Subscribes a function with its context and a delivery policy.
    pub fn a_subscribe_with(&mut self, p: AHandle, cb: u64, user: u64, policy: u32) -> (r: u64)
        requires
            old(self).valid(),
            old(self).live(p),
            old(self).state(p).next_sub < u64::MAX,
        ensures
            r == old(self).state(p).next_sub + 1,
            final(self).state(p) == old(self).state(p).subscribed(
                SubCb::C { cb, user },
                policy,
            ),
            final(self).heap == old(self).heap,
            old(self).does(
                *final(self),
                p,
                Event::Subscribe { cb: SubCb::C { cb, user }, policy },
            ),
            old(self).step(*final(self), p, nothing()),
    {
        let ghost pre = *self;
        proof {
            lemma_obj_valid(pre, p);
        }
        let i = self.slot(p);
        let mut r: u64 = 0;
        if let Some(a) = self.objs[i].as_mut() {
            r = a.subscribe_c(cb, user, policy);
        }
        proof {
            lemma_still(pre, *self, p);
        }
        r
    }

    /// Removes a subscription. Called again until it says `Done`.
    pub fn a_unsubscribe(&mut self, p: AHandle, id: u64) -> (r: Teardown)
        requires
            old(self).valid(),
            old(self).live(p),
        ensures
            r == old(self).state(p).teardown(id),
            final(self).state(p) == old(self).state(p).unsubscribed(id),
            effect(
                old(self).heap,
                final(self).heap,
                old(self).state(p).unsubscribe_calls(old(self).heap, id),
            ),
            old(self).does(*final(self), p, Event::Unsubscribe { id }),
            old(self).step(*final(self), p, nothing()),
    {
        let ghost pre = *self;
        proof {
            lemma_obj_valid(pre, p);
        }
        let i = self.slot(p);
        let mut r = Teardown::Done;
        if let Some(a) = self.objs[i].as_mut() {
            r = a.unsubscribe(&mut self.heap, id);
        }
        proof {
            lemma_no_out(pre.heap, self.heap, pre.state(p).held(), self.state(p).held());
            lemma_obj_step(pre, *self, p, nothing());
        }
        r
    }

    /// Starts a capture for a function, which owns the frame. It cannot be
    /// cancelled; destroying the producer waits for it.
    pub fn a_capture(&mut self, p: AHandle, cb: u64) -> (r: CaptureJob)
        requires
            old(self).valid(),
            old(self).live(p),
            old(self).state(p).next_job < u64::MAX,
        ensures
            r == old(self).state(p).new_job(cb),
            final(self).state(p) == old(self).state(p).job_started(cb),
            final(self).heap == old(self).heap,
            old(self).does(*final(self), p, Event::StartJob { f: cb }),
            old(self).step(*final(self), p, nothing()),
    {
        let ghost pre = *self;
        proof {
            lemma_obj_valid(pre, p);
        }
        let i = self.slot(p);
        let mut r = CaptureJob { id: 0, cb, kind: 0, fired: false };
        if let Some(a) = self.objs[i].as_mut() {
            r = a.capture_cb(cb);
        }
        proof {
            lemma_still(pre, *self, p);
        }
        r
    }

    /// Starts a capture that can be cancelled; a function that is called with
    /// null was cancelled.
    pub fn a_capture2(&mut self, p: AHandle, cb: u64) -> (r: u64)
        requires
            old(self).valid(),
            old(self).live(p),
            old(self).state(p).next_sub < u64::MAX,
        ensures
            r == old(self).state(p).next_sub + 1,
            final(self).state(p) == old(self).state(p).capturing(cb),
            final(self).heap == old(self).heap,
            old(self).does(*final(self), p, Event::Capture { f: cb }),
            old(self).step(*final(self), p, nothing()),
    {
        let ghost pre = *self;
        proof {
            lemma_obj_valid(pre, p);
        }
        let i = self.slot(p);
        let mut r: u64 = 0;
        if let Some(a) = self.objs[i].as_mut() {
            r = a.capture_cb_cancellable(cb);
        }
        proof {
            lemma_still(pre, *self, p);
        }
        r
    }

    /// Cancels a capture. The caller then waits until its function has
    /// returned.
    pub fn a_capture_cancel(&mut self, err: &mut LastError, p: AHandle, id: u64) -> (r: i32)
        requires
            old(self).valid(),
            old(self).live(p),
        ensures
            ({
                let s = old(self).state(p);
                let known = capture_index(s.captures, id) >= 0 && s.capture(id).listed;
                let status = if known {
                    AStatus::Okay
                } else {
                    AStatus::InvalidArgument
                };
                &&& r == status_code(status)
                &&& final(err)@ == detail(old(err)@, Some(status))
                &&& final(self).state(p) == if known {
                    s.with_capture(id, cancelled(s.capture(id)))
                } else {
                    s
                }
            }),
            final(self).heap == old(self).heap,
            r == 0 ==> old(self).does(*final(self), p, Event::Cancel { id }),
            old(self).step(*final(self), p, nothing()),
    {
        let ghost pre = *self;
        proof {
            lemma_obj_valid(pre, p);
        }
        let i = self.slot(p);
        let mut res: Result<(), AStatus> = Ok(());
        if let Some(a) = self.objs[i].as_mut() {
            res = a.cancel_capture(id);
        }
        proof {
            lemma_still(pre, *self, p);
        }
        shield(err, Some(AStatus::of_result(res)))
    }

    /// Starts a stream; says no while an earlier one has frames to send.
    pub fn a_stream(&mut self, p: AHandle, count: u32, period_ms: u32) -> (r: bool)
        requires
            old(self).valid(),
            old(self).live(p),
        ensures
            r == (old(self).state(p).stream matches Some(s) ==> s.finished()),
            final(self).state(p) == if r {
                State {
                    stream: Some(
                        Producer {
                            count,
                            period_ms,
                            kind: old(self).state(p).frame_kind,
                            next: 0,
                            frame: None,
                            calling: None,
                            sleeping: false,
                        },
                    ),
                    ..old(self).state(p)
                }
            } else {
                old(self).state(p)
            },
            final(self).heap == old(self).heap,
            r ==> old(self).does(*final(self), p, Event::Stream { count, period_ms }),
            old(self).step(*final(self), p, nothing()),
    {
        let ghost pre = *self;
        proof {
            lemma_obj_valid(pre, p);
        }
        let i = self.slot(p);
        let mut r = false;
        if let Some(a) = self.objs[i].as_mut() {
            r = a.stream(count, period_ms);
        }
        proof {
            lemma_still(pre, *self, p);
        }
        r
    }

    /// Ends a stream that has sent all its frames; says no while it has not.
    pub fn a_stream_join(&mut self, p: AHandle) -> (r: bool)
        requires
            old(self).valid(),
            old(self).live(p),
        ensures
            r == (old(self).state(p).stream matches Some(s) ==> s.finished()),
            final(self).state(p) == if r {
                State { stream: None, ..old(self).state(p) }
            } else {
                old(self).state(p)
            },
            final(self).heap == old(self).heap,
            r ==> old(self).does(*final(self), p, Event::Join),
            old(self).step(*final(self), p, nothing()),
    {
        let ghost pre = *self;
        proof {
            lemma_obj_valid(pre, p);
        }
        let i = self.slot(p);
        let mut r = false;
        if let Some(a) = self.objs[i].as_mut() {
            r = a.stream_join();
        }
        proof {
            lemma_still(pre, *self, p);
        }
        r
    }
}

impl Liba {
    /// Whether somebody outside the library holds a reference to `b`.
    pub open spec fn lent(self, b: ABuf) -> bool {
        self.heap.count(b.addr) > self.held()(b.addr)
    }

    /// The same, as a test.
    pub fn is_lent(&self, b: ABuf) -> (r: bool)
        requires
            self.valid(),
        ensures
            r == self.lent(b),
    {
        assert(self.held()(b.addr) <= self.heap.count(b.addr));
        let count = self.heap.ref_count(b.addr);
        let n = self.objs.len();
        let mut held: usize = 0;
        let mut i: usize = 0;
        assert(self.objs@.take(0) =~= Seq::<Option<A>>::empty());
        while i < n
            invariant
                n == self.objs@.len(),
                i <= n,
                held == objs_refs(self.objs@.take(i as int), b.addr),
                objs_refs(self.objs@, b.addr) <= usize::MAX,
            decreases n - i,
        {
            proof {
                assert(self.objs@.take(i + 1).drop_last() =~= self.objs@.take(i as int));
                lemma_objs_prefix(self.objs@, i + 1, b.addr);
            }
            if let Some(a) = &self.objs[i] {
                held = held + a.refs_to(b.addr);
            }
            i = i + 1;
        }
        assert(self.objs@.take(n as int) =~= self.objs@);
        count > held
    }

    /// Adds a reference to a buffer.
    pub fn a_buf_retain(&mut self, b: ABuf)
        requires
            old(self).valid(),
            old(self).heap.live(b.addr),
            old(self).heap.room(b.addr),
        ensures
            final(self).heap.count(b.addr) == old(self).heap.count(b.addr) + 1,
            effect(old(self).heap, final(self).heap, Seq::empty()),
            final(self).objs == old(self).objs,
            final(self).valid(),
            transfer(old(self).heap, final(self).heap, nothing(), one(b.addr)),
    {
        let ghost pre = *self;
        Frame::retain_raw(&mut self.heap, b);
        proof {
            assert forall|q: u64| #[trigger] self.held()(q) <= self.heap.count(q) by {
                assert(pre.held()(q) <= pre.heap.count(q));
                assert(self.heap.count(q) + nothing()(q) == pre.heap.count(q) + one(b.addr)(q));
            }
        }
    }

    /// Gives a reference to a buffer up.
    pub fn a_buf_release(&mut self, b: ABuf)
        requires
            old(self).valid(),
            old(self).lent(b),
        ensures
            final(self).heap.count(b.addr) + 1 == old(self).heap.count(b.addr),
            effect(old(self).heap, final(self).heap, freed(old(self).heap, b.addr)),
            final(self).objs == old(self).objs,
            final(self).valid(),
            transfer(old(self).heap, final(self).heap, one(b.addr), nothing()),
    {
        let ghost pre = *self;
        Frame::release_raw(&mut self.heap, b);
        proof {
            assert forall|q: u64| #[trigger] self.held()(q) <= self.heap.count(q) by {
                assert(pre.held()(q) <= pre.heap.count(q));
                assert(self.heap.count(q) + one(b.addr)(q) == pre.heap.count(q) + nothing()(q));
            }
        }
    }

    /// A borrowed view of a buffer, while the caller holds a reference.
    pub fn a_buf_map(&self, b: ABuf) -> (r: ABufView)
        requires
            self.heap.wf(),
            self.heap.live(b.addr),
        ensures
            r == self.buf_view(b),
    {
        ABufView { ptr: b.addr, len: self.heap.bytes(b.addr).len() }
    }

    /// A writable view, null unless the buffer has a single reference.
    pub fn a_buf_map_mut(&self, b: ABuf) -> (r: ABufViewMut)
        requires
            self.heap.wf(),
            self.heap.live(b.addr),
        ensures
            r == (if self.heap.count(b.addr) == 1 {
                ABufViewMut { ptr: b.addr, len: FRAME_LEN }
            } else {
                ABufViewMut { ptr: 0, len: 0 }
            }),
    {
        match Frame::map_mut_raw(&self.heap, b) {
            Some((ptr, len)) => ABufViewMut { ptr, len },
            None => ABufViewMut { ptr: 0, len: 0 },
        }
    }

    /// The geometry of a buffer.
    pub fn a_buf_info(&self, b: ABuf) -> (r: AFrameInfoV1)
        requires
            self.heap.wf(),
            self.heap.live(b.addr),
        ensures
            r == frame_geometry(),
    {
        Frame::from_raw(b).info(&self.heap)
    }

    /// The storage descriptor of a buffer.
    pub fn a_buf_export(&self, b: ABuf, dup: i32) -> (r: AFrameDescV1)
        requires
            self.heap.wf(),
            self.heap.live(b.addr),
        ensures
            r == exported(self.heap.storage(b.addr), dup),
    {
        Frame::from_raw(b).export(&self.heap, dup)
    }

    /// The storage descriptor of a buffer with its pixel format.
    pub fn a_buf_export2(&self, b: ABuf, dup: i32) -> (r: AFrameDescV2)
        requires
            self.heap.wf(),
            self.heap.live(b.addr),
        ensures
            r == exported2(self.heap.storage(b.addr), dup),
    {
        Frame::from_raw(b).export2(&self.heap, dup)
    }

    /// The next step of the thread that runs the stream of `p`.
    pub fn producer_step(&mut self, p: AHandle) -> (r: ProducerStep)
        requires
            old(self).valid(),
            old(self).live(p),
            old(self).state(p).emit_room(old(self).heap),
        ensures
            exists|fresh: u64| #[trigger]
                produces(old(self).state(p), final(self).state(p), r, fresh),
            r matches ProducerStep::Produced { index } ==> {
                let buf = final(self).state(p).emitting()->Some_0.buf;
                &&& final(self).state(p).emitting() is Some
                &&& final(self).heap.count(buf) == 1
                &&& final(self).heap.storage(buf) == made_storage(
                    old(self).heap.supply,
                    frame_seed(index),
                    old(self).state(p).stream->Some_0.kind,
                )
            },
            producer_effect(old(self).heap, final(self).heap, old(self).state(p), r),
            old(self).step(*final(self), p, producer_refs(r)),
    {
        let ghost pre = *self;
        proof {
            lemma_obj_valid(pre, p);
        }
        let i = self.slot(p);
        let mut r = ProducerStep::Idle;
        if let Some(a) = self.objs[i].as_mut() {
            r = a.producer_step(&mut self.heap);
        }
        proof {
            lemma_obj_step(pre, *self, p, producer_refs(r));
        }
        r
    }

    /// The next step of the pump of subscription `id` of `p`.
    pub fn pump_step(&mut self, p: AHandle, id: u64) -> (r: PumpStep)
        requires
            old(self).valid(),
            old(self).live(p),
            old(self).state(p).pump_room(old(self).heap, id),
        ensures
            r == old(self).state(p).pump_step(id),
            final(self).state(p) == old(self).state(p).pumped(id),
            effect(
                old(self).heap,
                final(self).heap,
                old(self).state(p).pump_calls(old(self).heap, id),
            ),
            old(self).does(*final(self), p, Event::Pump { id }),
            old(self).step(*final(self), p, pump_refs(r)),
    {
        let ghost pre = *self;
        proof {
            lemma_obj_valid(pre, p);
        }
        let i = self.slot(p);
        let mut r = PumpStep::Exit;
        if let Some(a) = self.objs[i].as_mut() {
            r = a.pump_step(&mut self.heap, id);
        }
        proof {
            lemma_obj_step(pre, *self, p, pump_refs(r));
        }
        r
    }

    /// The call for subscription `id` of `p` has returned.
    pub fn finish_invoke(&mut self, p: AHandle, id: u64) -> (r: bool)
        requires
            old(self).valid(),
            old(self).live(p),
        ensures
            r == old(self).state(p).in_call(id),
            final(self).state(p) == if r {
                old(self).state(p).returned(id)
            } else {
                old(self).state(p)
            },
            effect(
                old(self).heap,
                final(self).heap,
                old(self).state(p).return_calls(old(self).heap, id),
            ),
            r ==> old(self).does(*final(self), p, Event::Return { id }),
            old(self).step(*final(self), p, nothing()),
    {
        let ghost pre = *self;
        proof {
            lemma_obj_valid(pre, p);
        }
        let i = self.slot(p);
        let mut r = false;
        if let Some(a) = self.objs[i].as_mut() {
            r = a.finish_invoke(&mut self.heap, id);
        }
        proof {
            lemma_no_out(pre.heap, self.heap, pre.state(p).held(), self.state(p).held());
            lemma_obj_step(pre, *self, p, nothing());
        }
        r
    }

    /// The moment of capture `id` of `p`.
    pub fn fire_capture(&mut self, p: AHandle, id: u64) -> (r: CaptureStep)
        requires
            old(self).valid(),
            old(self).live(p),
        ensures
            r is Nothing <==> !old(self).state(p).waiting(id),
            r is Nothing ==> final(self).state(p) == old(self).state(p) && final(self).heap
                == old(self).heap,
            r matches CaptureStep::Complete { cb, frame } ==> {
                let c = old(self).state(p).capture(id);
                &&& cb == c.cb
                &&& frame is None <==> c.cancelled
                &&& final(self).state(p) == old(self).state(p).with_capture(
                    id,
                    CaptureEntry { fired: true, ..c },
                )
                &&& frame is None ==> final(self).heap == old(self).heap
                &&& frame matches Some(f) ==> captured(
                    old(self).heap,
                    final(self).heap,
                    f.buf,
                    c.kind,
                )
            },
            r matches CaptureStep::Complete { frame, .. } ==> old(self).does(
                *final(self),
                p,
                Event::Fire { id, frame },
            ),
            old(self).step(*final(self), p, capture_refs(r)),
    {
        let ghost pre = *self;
        proof {
            lemma_obj_valid(pre, p);
        }
        let i = self.slot(p);
        let mut r = CaptureStep::Nothing;
        if let Some(a) = self.objs[i].as_mut() {
            r = a.fire_capture(&mut self.heap, id);
        }
        proof {
            lemma_handed_out(pre, *self, p, capture_refs(r));
        }
        r
    }

    /// The function of capture `id` of `p` has returned.
    pub fn finish_capture(&mut self, p: AHandle, id: u64) -> (r: bool)
        requires
            old(self).valid(),
            old(self).live(p),
        ensures
            r == (capture_index(old(self).state(p).captures, id) >= 0 && old(self).state(
                p,
            ).capture(id).fired),
            final(self).state(p) == if r {
                State {
                    captures: old(self).state(p).captures.remove(
                        capture_index(old(self).state(p).captures, id),
                    ),
                    ..old(self).state(p)
                }
            } else {
                old(self).state(p)
            },
            final(self).heap == old(self).heap,
            r ==> old(self).does(*final(self), p, Event::FinishCapture { id }),
            old(self).step(*final(self), p, nothing()),
    {
        let ghost pre = *self;
        proof {
            lemma_obj_valid(pre, p);
        }
        let i = self.slot(p);
        let mut r = false;
        if let Some(a) = self.objs[i].as_mut() {
            r = a.finish_capture(id);
        }
        proof {
            lemma_still(pre, *self, p);
        }
        r
    }

    /// The moment of job `id` of `p`.
    pub fn fire_job(&mut self, p: AHandle, id: u64) -> (r: CaptureStep)
        requires
            old(self).valid(),
            old(self).live(p),
        ensures
            r is Nothing <==> !old(self).state(p).job_waiting(id),
            r is Nothing ==> final(self).state(p) == old(self).state(p) && final(self).heap
                == old(self).heap,
            r matches CaptureStep::Complete { cb, frame } ==> {
                let j = old(self).state(p).job(id);
                &&& cb == j.cb
                &&& final(self).state(p) == old(self).state(p).job_fired(id)
                &&& frame is Some
                &&& captured(old(self).heap, final(self).heap, frame->Some_0.buf, j.kind)
            },
            r matches CaptureStep::Complete { frame: Some(with), .. } ==> old(self).does(
                *final(self),
                p,
                Event::FireJob { id, with },
            ),
            old(self).step(*final(self), p, capture_refs(r)),
    {
        let ghost pre = *self;
        proof {
            lemma_obj_valid(pre, p);
        }
        let i = self.slot(p);
        let mut r = CaptureStep::Nothing;
        if let Some(a) = self.objs[i].as_mut() {
            r = a.fire_job(&mut self.heap, id);
        }
        proof {
            lemma_handed_out(pre, *self, p, capture_refs(r));
        }
        r
    }

    /// The function of job `id` of `p` has returned.
    pub fn finish_job(&mut self, p: AHandle, id: u64) -> (r: bool)
        requires
            old(self).valid(),
            old(self).live(p),
        ensures
            r == old(self).state(p).job_in_call(id),
            final(self).state(p) == if r {
                old(self).state(p).job_finished(id)
            } else {
                old(self).state(p)
            },
            final(self).heap == old(self).heap,
            r ==> old(self).does(*final(self), p, Event::FinishJob { id }),
            old(self).step(*final(self), p, nothing()),
    {
        let ghost pre = *self;
        proof {
            lemma_obj_valid(pre, p);
        }
        let i = self.slot(p);
        let mut r = false;
        if let Some(a) = self.objs[i].as_mut() {
            r = a.finish_job(id);
        }
        proof {
            lemma_still(pre, *self, p);
        }
        r
    }
}

/// A step that hands out references which nobody held before.
pub proof fn lemma_handed_out(pre: Liba, post: Liba, p: AHandle, out: Holding)
    requires
        pre.valid(),
        pre.live(p),
        post.heap.wf(),
        post.objs@.len() == pre.objs@.len(),
        post.objs@ == pre.objs@.update(p.addr - 1, post.objs@[p.addr - 1]),
        post.objs@[p.addr - 1] is Some,
        post.state(p).wf(),
        forall|q: u64| #[trigger] post.state(p).held()(q) == pre.state(p).held()(q),
        transfer(pre.heap, post.heap, nothing(), out),
    ensures
        pre.step(post, p, out),
{
    let s = pre.state(p).held();
    let t = post.state(p).held();
    crate::heap::lemma_transfer_frame(pre.heap, post.heap, nothing(), out, s);
    assert forall|q: u64| #[trigger] both(out, s)(q) == both(t, out)(q) by {
        assert(post.state(p).held()(q) == pre.state(p).held()(q));
    }
    lemma_transfer_same(pre.heap, post.heap, both(nothing(), s), both(out, s), s, both(t, out));
    lemma_obj_step(pre, post, p, out);
}

/// A snapshot is no copy: the consumer sees it where the producer has its
/// payload, with the same bytes and the same storage, and the reference is
/// the consumer's own.
pub proof fn law_snapshot_is_zero_copy(pre: Liba, post: Liba, p: AHandle, b: ABuf)
    requires
        pre.valid(),
        pre.live(p),
        pre.snapshot(post, p, b),
    ensures
        post.buf_view(b) == pre.payload_view(p),
        post.buf_view(b) == post.payload_view(p),
        post.heap.storage(b.addr) == pre.heap.storage(pre.state(p).payload),
        post.lent(b),
        b.addr == pre.state(p).payload,
        post.state(p) == pre.state(p),
        post.heap.count(b.addr) == pre.heap.count(b.addr) + 1,
        post.heap.calls@ == pre.heap.calls@,
        post.heap.supply == pre.heap.supply,
{
    lemma_obj_valid(pre, p);
    let s = pre.state(p);
    assert(s.held()(s.payload) <= pre.heap.count(s.payload));
    assert(pre.heap.live(b.addr) && post.heap.live(b.addr));
    assert(pre.held()(b.addr) <= pre.heap.count(b.addr));
    assert(post.heap.count(b.addr) + pre.held()(b.addr) == pre.heap.count(b.addr) + both(
        post.held(),
        one(b.addr),
    )(b.addr));
    assert(pre.heap.calls@ + Seq::<PlatformCall>::empty() =~= pre.heap.calls@);
}

/// A frame outlives its producer: destroying one leaves every buffer that a
/// consumer holds alive, as it was, and the consumer's.
pub proof fn law_frame_outlives_producer(pre: Liba, post: Liba, b: ABuf)
    requires
        pre.valid(),
        pre.lent(b),
        transfer(pre.heap, post.heap, pre.held(), post.held()),
    ensures
        post.heap.live(b.addr),
        post.heap.storage(b.addr) == pre.heap.storage(b.addr),
        post.lent(b),
{
    assert(post.heap.count(b.addr) + pre.held()(b.addr) == pre.heap.count(b.addr) + post.held()(
        b.addr,
    ));
}

/// A change of one producer that keeps its references, with the heap as it
/// was.
pub proof fn lemma_still(pre: Liba, post: Liba, p: AHandle)
    requires
        pre.valid(),
        pre.live(p),
        post.heap == pre.heap,
        post.objs@.len() == pre.objs@.len(),
        post.objs@ == pre.objs@.update(p.addr - 1, post.objs@[p.addr - 1]),
        post.objs@[p.addr - 1] is Some,
        post.state(p).wf(),
        forall|q: u64| #[trigger] post.state(p).held()(q) == pre.state(p).held()(q),
    ensures
        pre.step(post, p, nothing()),
{
    let m0 = pre.state(p).held();
    let m1 = post.state(p).held();
    assert(transfer(pre.heap, post.heap, m0, m0));
    assert forall|q: u64| #[trigger] m0(q) == both(m1, nothing())(q) by {
        assert(post.state(p).held()(q) == pre.state(p).held()(q));
    }
    lemma_transfer_same(pre.heap, post.heap, m0, m0, m0, both(m1, nothing()));
    lemma_obj_step(pre, post, p, nothing());
}

/// An entry point on one producer leaves every other as it was, and takes
/// and gives no handle.
pub proof fn law_entry_point_touches_one_producer(
    pre: Liba,
    post: Liba,
    p: AHandle,
    out: Holding,
    other: AHandle,
)
    requires
        pre.step(post, p, out),
    ensures
        post.valid(),
        post.live(p),
        post.live(other) <==> pre.live(other),
        other != p && pre.live(other) ==> post.state(other) == pre.state(other),
{
}

/// What crosses the boundary reads back: a status as itself, a panic as
/// `Panic`, a result as itself. Success leaves the detail of the last failure
/// alone; an error replaces it by its text; a panic leaves what its hook
/// wrote.
pub proof fn law_what_crosses_the_boundary(
    s: AStatus,
    r: Result<(), AStatus>,
    before: Option<Seq<char>>,
)
    ensures
        status_of_code(shielded(Some(s))) == s,
        status_of_code(shielded(None)) == AStatus::Panic,
        shielded(None) == -1,
        result_code(r) == 0 <==> r is Ok || r == Err::<(), AStatus>(AStatus::Okay),
        r matches Err(e) ==> status_of_code(result_code(r)) == e,
        detail(before, None) == before,
        s == AStatus::Okay ==> detail(before, Some(s)) == before,
        s != AStatus::Okay ==> detail(before, Some(s)) == Some(status_text(s)),
        r is Ok ==> result_detail(before, r) == before,
        r matches Err(e) ==> result_detail(before, r) == detail(before, Some(e)),
{
    reveal_strlit("ok");
    reveal_strlit("internal panic caught at the library boundary");
    reveal_strlit("invalid argument");
    reveal_strlit("target is exclusively borrowed elsewhere");
    reveal_strlit("resource kind unavailable in this environment");
    reveal_strlit("unrecognized status code from a newer library");
    assert(!status_text(s).contains('\0'));
}

/// A payload is seen where it is, a buffer where its handle says, and both in
/// their whole length.
pub proof fn law_views_are_whole(l: Liba, p: AHandle, b: ABuf)
    ensures
        l.payload_view(p).ptr == l.state(p).payload,
        l.payload_view(p).len == 4096,
        l.buf_view(b).ptr == b.addr,
        l.buf_view(b).len == 4096,
{
}

} // verus!
