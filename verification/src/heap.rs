//! The heap of reference-counted frame buffers.
//!
//! A buffer is named by its address, a positive integer; zero is null. Each
//! holder of a buffer owns one or more of its references, and a buffer is
//! given back when its last reference goes. A buffer is only ever written
//! while it has a single reference, so whoever else holds one keeps the
//! bytes that it saw.

use vstd::prelude::*;
use crate::abi::AFrameInfoV1;
use crate::storage::{
    alloc_or_heap, alloc_supply, bracket, close_calls, duplicate_calls, duplicated, free_calls,
    open_calls, Access, Platform, PlatformCall, Storage, StorageView, Supply,
};

verus! {

/// Bytes of a frame: 32 rows, 128 bytes apart.
pub const FRAME_LEN: usize = 4096;

/// Geometry of every frame: 32 rows of 30 pixels of four channels. Rows are
/// padded to 128 bytes, so a consumer must honour the stride.
pub open spec fn frame_geometry() -> AFrameInfoV1 {
    AFrameInfoV1 { rows: 32, cols: 30, channels: 4, row_stride: 128 }
}

/// The geometry of every frame.
pub fn frame_info() -> (r: AFrameInfoV1)
    ensures
        r == frame_geometry(),
{
    AFrameInfoV1 { rows: 32, cols: 30, channels: 4, row_stride: 128 }
}

/// The rows of a frame fill its buffer, and each is longer than its pixels.
pub proof fn law_frame_geometry()
    ensures
        frame_geometry().rows * frame_geometry().row_stride == FRAME_LEN,
        frame_geometry().row_stride > frame_geometry().cols * frame_geometry().channels,
{
}

/// The bytes of a frame made from `seed`: they count up from it and wrap.
pub open spec fn pattern(seed: u8) -> Seq<u8> {
    Seq::new(FRAME_LEN as nat, |i: int| ((seed + i) % 256) as u8)
}

/// The sum of the bytes.
pub open spec fn sum_bytes(s: Seq<u8>) -> nat
    decreases s.len(),
{
    if s.len() == 0 {
        0
    } else {
        sum_bytes(s.drop_last()) + s.last() as nat
    }
}

/// The sum is at most 255 per byte.
pub proof fn lemma_sum_bound(s: Seq<u8>)
    ensures
        sum_bytes(s) <= 255 * s.len(),
    decreases s.len(),
{
    if s.len() > 0 {
        lemma_sum_bound(s.drop_last());
    }
}

/// The sum of `n` numbers that count up from `a`, each modulo 256.
spec fn run_sum(a: int, n: nat) -> int
    decreases n,
{
    if n == 0 {
        0
    } else {
        run_sum(a, (n - 1) as nat) + (a + n - 1) % 256
    }
}

/// Shifting a run by one exchanges its first number for the one behind its
/// last.
proof fn lemma_run_shift(a: int, n: nat)
    requires
        0 <= a,
    ensures
        run_sum(a + 1, n) + a % 256 == run_sum(a, n) + (a + n) % 256,
    decreases n,
{
    if n > 0 {
        lemma_run_shift(a, (n - 1) as nat);
    }
}

/// A run of at most 256 numbers from zero does not wrap.
proof fn lemma_run_from_zero(n: nat)
    requires
        n <= 256,
    ensures
        2 * run_sum(0, n) == n * (n - 1),
    decreases n,
{
    if n > 0 {
        let m = (n - 1) as nat;
        lemma_run_from_zero(m);
        assert(n * (n - 1) == m * (m - 1) + 2 * m) by (nonlinear_arith)
            requires
                n == m + 1,
        ;
    } else {
        assert(n * (n - 1) == 0) by (nonlinear_arith)
            requires
                n == 0,
        ;
    }
}

/// Any 256 numbers in a row contain every residue once.
proof fn lemma_run_period(a: int)
    requires
        0 <= a,
    ensures
        run_sum(a, 256) == 32640,
    decreases a,
{
    if a == 0 {
        lemma_run_from_zero(256);
    } else {
        lemma_run_period(a - 1);
        lemma_run_shift(a - 1, 256);
    }
}

/// A run is its first part and the run behind it.
proof fn lemma_run_split(a: int, m: nat, n: nat)
    ensures
        run_sum(a, m + n) == run_sum(a, m) + run_sum(a + m, n),
    decreases n,
{
    if n > 0 {
        lemma_run_split(a, m, (n - 1) as nat);
    }
}

/// Whole periods add up to the same, wherever they start.
proof fn lemma_run_periods(a: int, k: nat)
    requires
        0 <= a,
    ensures
        run_sum(a, 256 * k) == 32640 * k,
    decreases k,
{
    if k > 0 {
        lemma_run_periods(a, (k - 1) as nat);
        lemma_run_split(a, (256 * (k - 1)) as nat, 256);
        lemma_run_period(a + 256 * (k - 1));
    }
}

/// The sum of a pattern's first bytes is that of a run.
proof fn lemma_pattern_sum(seed: u8, n: nat)
    requires
        n <= FRAME_LEN,
    ensures
        sum_bytes(pattern(seed).take(n as int)) == run_sum(seed as int, n),
    decreases n,
{
    if n > 0 {
        assert(pattern(seed).take(n as int).drop_last() =~= pattern(seed).take(n - 1));
        lemma_pattern_sum(seed, (n - 1) as nat);
    }
}

/// The sum of a frame's bytes does not tell its seed: the length is a
/// multiple of 256, so every byte value occurs equally often.
pub proof fn law_checksum_ignores_seed(seed: u8)
    ensures
        sum_bytes(pattern(seed)) == 522240,
{
    lemma_pattern_sum(seed, FRAME_LEN as nat);
    assert(pattern(seed).take(FRAME_LEN as int) =~= pattern(seed));
    lemma_run_periods(seed as int, 16);
}

/// Adds up the bytes.
pub fn sum(bytes: &[u8]) -> (r: u64)
    requires
        bytes@.len() <= FRAME_LEN,
    ensures
        r == sum_bytes(bytes@),
{
    let n = bytes.len();
    let mut i: usize = 0;
    let mut total: u64 = 0;
    while i < n
        invariant
            n == bytes@.len(),
            n <= FRAME_LEN,
            i <= n,
            total == sum_bytes(bytes@.take(i as int)),
        decreases n - i,
    {
        proof {
            lemma_sum_bound(bytes@.take(i as int));
            assert(bytes@.take(i + 1).drop_last() =~= bytes@.take(i as int));
        }
        total = total + bytes[i] as u64;
        i = i + 1;
    }
    assert(bytes@.take(n as int) =~= bytes@);
    total
}

/// Writes the pattern of `seed` over the bytes.
fn write_pattern(bytes: &mut [u8], seed: u8)
    requires
        old(bytes)@.len() == FRAME_LEN,
    ensures
        final(bytes)@ == pattern(seed),
{
    let mut i: usize = 0;
    while i < FRAME_LEN
        invariant
            bytes@.len() == FRAME_LEN,
            i <= FRAME_LEN,
            forall|j: int| 0 <= j < i ==> bytes@[j] == pattern(seed)[j],
        decreases FRAME_LEN - i,
    {
        let b: u8 = seed.wrapping_add((i % 256) as u8);
        assert(b == (seed + i) % 256);
        bytes[i] = b;
        i = i + 1;
    }
    assert(bytes@ =~= pattern(seed));
}

/// A buffer's contents: geometry and storage travel together.
pub struct BufData {
    pub info: AFrameInfoV1,
    pub storage: Storage,
}

impl BufData {
    /// The bytes.
    pub fn bytes(&self) -> (r: &[u8])
        ensures
            r@ == self.storage@.bytes,
    {
        self.storage.bytes()
    }

    /// The bytes, for writing.
    pub fn bytes_mut(&mut self) -> (r: &mut [u8])
        ensures
            r@ == old(self).storage@.bytes,
            final(self).storage@ == (StorageView { bytes: final(r)@, ..old(self).storage@ }),
            final(self).info == old(self).info,
    {
        self.storage.bytes_mut()
    }
}

/// One place for a buffer: how many references it has, and its contents
/// while there is any.
pub struct Slot {
    pub count: usize,
    pub data: Option<BufData>,
}

/// All buffers, what the platform can still supply, and what it is asked to
/// do.
pub struct Heap {
    pub slots: Vec<Slot>,
    pub supply: Supply,
    pub calls: Vec<PlatformCall>,
}

/// References that somebody holds, by buffer.
pub type Holding = spec_fn(u64) -> nat;

/// No reference.
pub open spec fn nothing() -> Holding {
    |q: u64| 0nat
}

/// One reference to `p`.
pub open spec fn one(p: u64) -> Holding {
    |q: u64|
        if q == p {
            1nat
        } else {
            0
        }
}

/// The references of both.
pub open spec fn both(a: Holding, b: Holding) -> Holding {
    |q: u64| (a(q) + b(q)) as nat
}

impl Heap {
    /// Whether `p` is the address of a place.
    pub open spec fn in_range(self, p: u64) -> bool {
        1 <= p <= self.slots@.len()
    }

    /// References to the buffer at `p`; none for an address without buffer.
    pub open spec fn count(self, p: u64) -> nat {
        if self.in_range(p) {
            self.slots@[p - 1].count as nat
        } else {
            0
        }
    }

    /// Whether `p` is the address of a buffer.
    pub open spec fn live(self, p: u64) -> bool {
        self.count(p) > 0
    }

    /// The storage of the buffer at `p`.
    pub open spec fn storage(self, p: u64) -> StorageView {
        self.slots@[p - 1].data->Some_0.storage@
    }

    /// The bytes of the buffer at `p`.
    pub open spec fn bytes_at(self, p: u64) -> Seq<u8> {
        self.storage(p).bytes
    }

    /// A place holds contents exactly while they are referenced, and all
    /// contents are frames.
    pub open spec fn wf(self) -> bool {
        forall|i: int|
            0 <= i < self.slots@.len() ==> {
                &&& (#[trigger] self.slots@[i]).count > 0 <==> self.slots@[i].data is Some
                &&& self.slots@[i].data is Some ==> {
                    &&& self.slots@[i].data->Some_0.info == frame_geometry()
                    &&& self.slots@[i].data->Some_0.storage@.bytes.len() == FRAME_LEN
                }
            }
    }

    /// Whether one more reference to `p` can be counted.
    pub open spec fn room(self, p: u64) -> bool {
        self.count(p) < usize::MAX
    }

    /// Whether every reference in `h` is counted.
    pub open spec fn covers(self, h: Holding) -> bool {
        forall|q: u64| #[trigger] h(q) <= self.count(q)
    }

    /// Nothing was allocated from the platform, nor asked of it.
    pub open spec fn same_platform(self, post: Heap) -> bool {
        &&& post.supply == self.supply
        &&& post.calls == self.calls
    }
}

/// The storage that a holder of one reference to `p` may write: its own
/// where no other reference exists, else that of a copy.
pub open spec fn detached(h: Heap, p: u64) -> StorageView {
    if h.count(p) == 1 {
        h.storage(p)
    } else {
        duplicated(h.storage(p), h.supply)
    }
}

/// What making the buffer writable asks of the platform.
pub open spec fn detach_calls(h: Heap, p: u64) -> Seq<PlatformCall> {
    if h.count(p) == 1 {
        Seq::empty()
    } else {
        duplicate_calls(h.storage(p), h.supply)
    }
}

/// What making the buffer writable takes from the supply.
pub open spec fn detach_supply(h: Heap, p: u64, post: Supply) -> bool {
    if h.count(p) == 1 {
        post == h.supply
    } else {
        alloc_supply(h.supply, h.storage(p).kind, FRAME_LEN as int, post)
    }
}

/// The storage of a freshly made frame.
pub open spec fn made_storage(supply: Supply, seed: u8, kind: u32) -> StorageView {
    StorageView { bytes: pattern(seed), ..alloc_or_heap(supply, kind, FRAME_LEN as int) }
}

/// Every buffer that stays alive keeps its storage.
pub open spec fn keeps(pre: Heap, post: Heap) -> bool {
    forall|q: u64|
        #![trigger post.live(q)]
        #![trigger post.storage(q)]
        pre.live(q) && post.live(q) ==> post.storage(q) == pre.storage(q)
}

/// What dropping a reference to `p` asks of the platform: with the last one
/// the buffer is given back.
pub open spec fn freed(h: Heap, p: u64) -> Seq<PlatformCall> {
    if h.count(p) == 1 {
        free_calls(h.storage(p))
    } else {
        Seq::empty()
    }
}

/// How often `p` stands in `bufs`.
pub open spec fn occurrences(bufs: Seq<u64>, p: u64) -> nat
    decreases bufs.len(),
{
    if bufs.len() == 0 {
        0
    } else {
        occurrences(bufs.drop_last(), p) + one(bufs.last())(p)
    }
}

/// What dropping a reference to each of `bufs`, one after the other, asks of
/// the platform: a buffer is given back with its last reference.
pub open spec fn freed_all(h: Heap, bufs: Seq<u64>) -> Seq<PlatformCall>
    decreases bufs.len(),
{
    if bufs.len() == 0 {
        Seq::empty()
    } else {
        freed_all(h, bufs.drop_last()) + if h.count(bufs.last()) == occurrences(
            bufs,
            bufs.last(),
        ) {
            free_calls(h.storage(bufs.last()))
        } else {
            Seq::empty()
        }
    }
}

/// What a step without allocation does beyond counting: it makes `calls`,
/// and every buffer that stays alive keeps its storage.
pub open spec fn effect(pre: Heap, post: Heap, calls: Seq<PlatformCall>) -> bool {
    &&& post.supply == pre.supply
    &&& post.calls@ == pre.calls@ + calls
    &&& keeps(pre, post)
}

/// What a step that allocates one frame of `kind` does beyond counting.
pub open spec fn alloc_effect(pre: Heap, post: Heap, kind: u32, calls: Seq<PlatformCall>) -> bool {
    &&& alloc_supply(pre.supply, kind, FRAME_LEN as int, post.supply)
    &&& post.calls@ == pre.calls@ + calls
    &&& keeps(pre, post)
}

/// What making a frame asks of the platform.
pub open spec fn making_calls(supply: Supply, seed: u8, kind: u32) -> Seq<PlatformCall> {
    bracket(made_storage(supply, seed, kind), Access::Write, Seq::empty())
}

/// Dropping one reference, as a list.
pub proof fn lemma_freed_one(h: Heap, p: u64)
    ensures
        freed_all(h, seq![p]) == freed(h, p),
        freed_all(h, Seq::empty()) == Seq::<PlatformCall>::empty(),
{
    reveal_with_fuel(freed_all, 2);
    reveal_with_fuel(occurrences, 2);
    assert(seq![p].drop_last() =~= Seq::<u64>::empty());
    assert(freed_all(h, seq![p]) =~= freed(h, p));
}

/// Dropping one more reference, after those to `bufs` were dropped.
pub proof fn lemma_freed_next(h: Heap, now: Heap, bufs: Seq<u64>, p: u64)
    requires
        now.count(p) + occurrences(bufs, p) == h.count(p),
        now.live(p),
        now.storage(p) == h.storage(p),
    ensures
        freed_all(h, bufs.push(p)) == freed_all(h, bufs) + freed(now, p),
        forall|q: u64| #[trigger]
            occurrences(bufs.push(p), q) == occurrences(bufs, q) + one(p)(q),
{
    assert(bufs.push(p).drop_last() =~= bufs);
}

/// What a holder may do to the heap: its references change from `m0` to
/// `m1`, every count follows, and a buffer of which somebody else holds a
/// reference keeps its contents.
pub open spec fn transfer(pre: Heap, post: Heap, m0: Holding, m1: Holding) -> bool {
    &&& forall|q: u64| #[trigger] post.count(q) + m0(q) == pre.count(q) + m1(q)
    &&& forall|q: u64|
        pre.count(q) > m0(q) ==> #[trigger] post.storage(q) == pre.storage(q)
}

/// Steps of one holder, one after the other.
pub proof fn lemma_transfer_trans(
    a: Heap,
    b: Heap,
    c: Heap,
    m0: Holding,
    m1: Holding,
    m2: Holding,
)
    requires
        transfer(a, b, m0, m1),
        transfer(b, c, m1, m2),
    ensures
        transfer(a, c, m0, m2),
{
    assert forall|q: u64| #[trigger] c.count(q) + m0(q) == a.count(q) + m2(q) by {
        assert(b.count(q) + m0(q) == a.count(q) + m1(q));
    }
    assert forall|q: u64| a.count(q) > m0(q) implies #[trigger] c.storage(q) == a.storage(q) by {
        assert(b.count(q) + m0(q) == a.count(q) + m1(q));
        assert(b.storage(q) == a.storage(q));
    }
}

/// A step that says nothing of further references of the same holder keeps
/// them.
pub proof fn lemma_transfer_frame(a: Heap, b: Heap, m0: Holding, m1: Holding, rest: Holding)
    requires
        transfer(a, b, m0, m1),
    ensures
        transfer(a, b, both(m0, rest), both(m1, rest)),
{
    assert forall|q: u64| #[trigger]
        b.count(q) + both(m0, rest)(q) == a.count(q) + both(m1, rest)(q) by {
        assert(b.count(q) + m0(q) == a.count(q) + m1(q));
    }
    assert forall|q: u64| a.count(q) > both(m0, rest)(q) implies #[trigger] b.storage(q)
        == a.storage(q) by {
        assert(a.count(q) > m0(q));
    }
}

/// Holdings that agree everywhere can stand for each other.
pub proof fn lemma_transfer_same(
    a: Heap,
    b: Heap,
    m0: Holding,
    m1: Holding,
    n0: Holding,
    n1: Holding,
)
    requires
        transfer(a, b, m0, m1),
        forall|q: u64| #[trigger] m0(q) == n0(q),
        forall|q: u64| #[trigger] m1(q) == n1(q),
    ensures
        transfer(a, b, n0, n1),
{
    assert forall|q: u64| #[trigger] b.count(q) + n0(q) == a.count(q) + n1(q) by {
        assert(m0(q) == n0(q) && m1(q) == n1(q));
        assert(b.count(q) + m0(q) == a.count(q) + m1(q));
    }
    assert forall|q: u64| a.count(q) > n0(q) implies #[trigger] b.storage(q) == a.storage(q) by {
        assert(m0(q) == n0(q));
    }
}

/// Whatever one holder does, the references of the others stay counted, and
/// every buffer that another holder has a reference to stays alive with the
/// same storage, kind and bytes: a snapshot never changes under its holder.
pub proof fn law_other_holders_unaffected(
    pre: Heap,
    post: Heap,
    m0: Holding,
    m1: Holding,
    others: Holding,
)
    requires
        transfer(pre, post, m0, m1),
        pre.covers(both(m0, others)),
    ensures
        post.covers(both(m1, others)),
        forall|p: u64| others(p) > 0 ==> #[trigger] post.live(p),
        forall|p: u64| others(p) > 0 ==> #[trigger] post.storage(p) == pre.storage(p),
{
    assert forall|q: u64| #[trigger] both(m1, others)(q) <= post.count(q) by {
        assert(both(m0, others)(q) <= pre.count(q));
        assert(post.count(q) + m0(q) == pre.count(q) + m1(q));
    }
    assert forall|p: u64| others(p) > 0 implies #[trigger] post.live(p) by {
        assert(both(m0, others)(p) <= pre.count(p));
        assert(post.count(p) + m0(p) == pre.count(p) + m1(p));
    }
    assert forall|p: u64| others(p) > 0 implies #[trigger] post.storage(p) == pre.storage(p) by {
        assert(both(m0, others)(p) <= pre.count(p));
    }
}

/// A holder that gives everything back leaves exactly the references of the
/// others: what only it held is freed, nothing else is.
pub proof fn law_giving_back_frees_exactly_the_own(
    pre: Heap,
    post: Heap,
    m0: Holding,
    others: Holding,
)
    requires
        transfer(pre, post, m0, nothing()),
        forall|q: u64| pre.count(q) == #[trigger] both(m0, others)(q),
    ensures
        forall|q: u64| #[trigger] post.count(q) == others(q),
{
    assert forall|q: u64| #[trigger] post.count(q) == others(q) by {
        assert(pre.count(q) == both(m0, others)(q));
        assert(post.count(q) + m0(q) == pre.count(q) + nothing()(q));
    }
}

impl Heap {
    /// A heap without buffers.
    pub fn new(platform: Platform) -> (r: Heap)
        ensures
            r.wf(),
            forall|q: u64| r.count(q) == 0,
            r.supply.platform == platform,
            r.supply.grants@.len() == 0,
            r.calls@.len() == 0,
    {
        Heap { slots: Vec::new(), supply: Supply::new(platform), calls: Vec::new() }
    }

    /// Where the buffer at `p` stands.
    fn index(&self, p: u64) -> (i: usize)
        requires
            self.in_range(p),
        ensures
            i == p - 1,
            i < self.slots@.len(),
    {
        let n = self.slots.len();
        assert(p <= n);
        (p - 1) as usize
    }

    /// References to the buffer at `p`.
    pub fn ref_count(&self, p: u64) -> (r: usize)
        ensures
            r == self.count(p),
    {
        if p == 0 || p > self.slots.len() as u64 {
            0
        } else {
            self.slots[self.index(p)].count
        }
    }

    /// Whether `p` is the address of a buffer and one more reference to it
    /// can be counted.
    pub fn can_retain(&self, p: u64) -> (r: bool)
        ensures
            r == (self.live(p) && self.room(p)),
    {
        let n = self.ref_count(p);
        n > 0 && n < usize::MAX
    }

    /// Puts a buffer with one reference into the heap.
    pub fn insert(&mut self, storage: Storage) -> (p: u64)
        requires
            old(self).wf(),
            storage@.bytes.len() == FRAME_LEN,
        ensures
            final(self).wf(),
            old(self).count(p) == 0,
            final(self).count(p) == 1,
            final(self).storage(p) == storage@,
            forall|q: u64| q != p ==> #[trigger] final(self).count(q) == old(self).count(q),
            forall|q: u64|
                old(self).live(q) ==> #[trigger] final(self).storage(q) == old(self).storage(q),
            old(self).same_platform(*final(self)),
            keeps(*old(self), *final(self)),
            transfer(*old(self), *final(self), nothing(), one(p)),
    {
        let n = self.slots.len();
        let data = BufData { info: frame_info(), storage };
        let mut i: usize = 0;
        while i < n
            invariant
                n == self.slots@.len(),
                i <= n,
                *self == *old(self),
                data.info == frame_geometry(),
                data.storage == storage,
                storage@.bytes.len() == FRAME_LEN,
                old(self).wf(),
            decreases n - i,
        {
            if self.slots[i].count == 0 {
                self.slots[i] = Slot { count: 1, data: Some(data) };
                return i as u64 + 1;
            }
            i = i + 1;
        }
        self.slots.push(Slot { count: 1, data: Some(data) });
        self.slots.len() as u64
    }

    /// Adds a reference to the buffer at `p`.
    pub fn retain(&mut self, p: u64)
        requires
            old(self).wf(),
            old(self).live(p),
            old(self).room(p),
        ensures
            final(self).wf(),
            final(self).count(p) == old(self).count(p) + 1,
            forall|q: u64| q != p ==> #[trigger] final(self).count(q) == old(self).count(q),
            forall|q: u64|
                old(self).live(q) ==> #[trigger] final(self).storage(q) == old(self).storage(q),
            old(self).same_platform(*final(self)),
            keeps(*old(self), *final(self)),
            transfer(*old(self), *final(self), nothing(), one(p)),
    {
        let i = self.index(p);
        self.slots[i].count = self.slots[i].count + 1;
    }

    /// Drops a reference to the buffer at `p`; with the last one the buffer
    /// is given back.
    pub fn release(&mut self, p: u64)
        requires
            old(self).wf(),
            old(self).live(p),
        ensures
            final(self).wf(),
            final(self).count(p) + 1 == old(self).count(p),
            forall|q: u64| q != p ==> #[trigger] final(self).count(q) == old(self).count(q),
            forall|q: u64|
                final(self).live(q) ==> #[trigger] final(self).storage(q) == old(self).storage(q),
            final(self).supply == old(self).supply,
            final(self).calls@ == old(self).calls@ + freed(*old(self), p),
            keeps(*old(self), *final(self)),
            transfer(*old(self), *final(self), one(p), nothing()),
    {
        let i = self.index(p);
        let n: usize = self.slots[i].count;
        if n == 1 {
            self.slots[i].count = 0;
            let data = self.slots[i].data.take();
            match data {
                Some(d) => d.storage.free(&mut self.calls),
                None => {},
            }
        } else {
            self.slots[i].count = n - 1;
            assert(self.calls@ =~= old(self).calls@ + Seq::<PlatformCall>::empty());
        }
    }

    /// The contents of the buffer at `p`.
    pub fn get(&self, p: u64) -> (r: &BufData)
        requires
            self.wf(),
            self.live(p),
        ensures
            r.storage@ == self.storage(p),
            r.info == frame_geometry(),
    {
        let i = self.index(p);
        self.slots[i].data.as_ref().unwrap()
    }

    /// The bytes of the buffer at `p`.
    pub fn bytes(&self, p: u64) -> (r: &[u8])
        requires
            self.wf(),
            self.live(p),
        ensures
            r@ == self.bytes_at(p),
            r@.len() == FRAME_LEN,
    {
        self.get(p).bytes()
    }

    /// The bytes of the buffer at `p` for writing, only while it has a
    /// single reference.
    pub fn bytes_mut(&mut self, p: u64) -> (r: Option<&mut [u8]>)
        requires
            old(self).wf(),
            old(self).live(p),
        ensures
            r is Some <==> old(self).count(p) == 1,
            r matches Some(b) ==> {
                &&& b@ == old(self).bytes_at(p)
                &&& b@.len() == FRAME_LEN
                &&& final(self).storage(p) == (StorageView {
                    bytes: final(b)@,
                    ..old(self).storage(p)
                })
                &&& final(b)@.len() == FRAME_LEN ==> final(self).wf()
            },
            r is None ==> *final(self) == *old(self),
            forall|q: u64| #[trigger] final(self).count(q) == old(self).count(q),
            forall|q: u64|
                q != p && old(self).live(q) ==> #[trigger] final(self).storage(q) == old(
                    self,
                ).storage(q),
            old(self).same_platform(*final(self)),
            transfer(*old(self), *final(self), one(p), one(p)),
    {
        let i = self.index(p);
        if self.slots[i].count != 1 {
            return None;
        }
        match self.slots[i].data.as_mut() {
            Some(d) => Some(d.bytes_mut()),
            None => None,
        }
    }

    /// Makes the buffer of a holder of one reference to `p` writable: the
    /// buffer itself where that reference is the only one, else a copy, for
    /// which the reference to `p` is given up.
    pub fn detach(&mut self, p: u64) -> (r: u64)
        requires
            old(self).wf(),
            old(self).live(p),
        ensures
            final(self).wf(),
            old(self).count(p) == 1 ==> r == p && *final(self) == *old(self),
            old(self).count(p) > 1 ==> old(self).count(r) == 0 && final(self).count(p) + 1 == old(
                self,
            ).count(p),
            final(self).count(r) == 1,
            forall|q: u64|
                q != p && q != r ==> #[trigger] final(self).count(q) == old(self).count(q),
            forall|q: u64|
                old(self).live(q) ==> #[trigger] final(self).storage(q) == old(self).storage(q),
            final(self).storage(r) == detached(*old(self), p),
            final(self).calls@ == old(self).calls@ + detach_calls(*old(self), p),
            detach_supply(*old(self), p, final(self).supply),
            transfer(*old(self), *final(self), one(p), one(r)),
    {
        if self.ref_count(p) == 1 {
            assert(self.calls@ =~= old(self).calls@ + detach_calls(*old(self), p));
            return p;
        }
        let i = self.index(p);
        let storage = &self.slots[i].data.as_ref().unwrap().storage;
        let fresh = storage.duplicate(&mut self.supply, &mut self.calls);
        let r = self.insert(fresh);
        self.release(p);
        assert(self.calls@ =~= old(self).calls@ + detach_calls(*old(self), p));
        r
    }

    /// Opens a bracket around an access to the buffer at `p`.
    pub fn open(&mut self, p: u64, a: Access)
        requires
            old(self).wf(),
            old(self).live(p),
        ensures
            final(self).slots == old(self).slots,
            final(self).supply == old(self).supply,
            final(self).calls@ == old(self).calls@ + open_calls(old(self).storage(p), a),
    {
        let i = self.index(p);
        self.slots[i].data.as_ref().unwrap().storage.open(a, &mut self.calls);
    }

    /// Closes the bracket that `open` with the same access opened.
    pub fn close(&mut self, p: u64, a: Access)
        requires
            old(self).wf(),
            old(self).live(p),
        ensures
            final(self).slots == old(self).slots,
            final(self).supply == old(self).supply,
            final(self).calls@ == old(self).calls@ + close_calls(old(self).storage(p), a),
    {
        let i = self.index(p);
        self.slots[i].data.as_ref().unwrap().storage.close(a, &mut self.calls);
    }

    /// Writes the pattern of `seed` for a holder of one reference to `p`,
    /// into the buffer itself or, where it is shared, into a copy.
    pub fn fill(&mut self, p: u64, seed: u8) -> (r: u64)
        requires
            old(self).wf(),
            old(self).live(p),
        ensures
            final(self).wf(),
            old(self).count(p) == 1 ==> r == p,
            old(self).count(p) > 1 ==> old(self).count(r) == 0 && final(self).count(p) + 1 == old(
                self,
            ).count(p),
            final(self).count(r) == 1,
            forall|q: u64|
                q != p && q != r ==> #[trigger] final(self).count(q) == old(self).count(q),
            forall|q: u64|
                q != r && old(self).live(q) ==> #[trigger] final(self).storage(q) == old(
                    self,
                ).storage(q),
            final(self).storage(r) == (StorageView {
                bytes: pattern(seed),
                ..detached(*old(self), p)
            }),
            final(self).calls@ == old(self).calls@ + detach_calls(*old(self), p) + bracket(
                detached(*old(self), p),
                Access::Write,
                Seq::empty(),
            ),
            detach_supply(*old(self), p, final(self).supply),
            transfer(*old(self), *final(self), one(p), one(r)),
    {
        let r = self.detach(p);
        let ghost h1 = *self;
        let i = self.index(r);
        if let Some(d) = self.slots[i].data.as_mut() {
            d.storage.open(Access::Write, &mut self.calls);
            write_pattern(d.storage.bytes_mut(), seed);
            d.storage.close(Access::Write, &mut self.calls);
        }
        proof {
            assert(self.calls@ =~= h1.calls@ + bracket(
                detached(*old(self), p),
                Access::Write,
                Seq::empty(),
            ));
            assert(transfer(h1, *self, one(r), one(r)));
            lemma_transfer_trans(*old(self), h1, *self, one(p), one(r), one(r));
        }
        r
    }

    /// Makes a frame whose bytes count up from `seed`, in storage of `kind`
    /// or, where that cannot be had now, in heap storage.
    pub fn make_frame(&mut self, seed: u8, kind: u32) -> (p: u64)
        requires
            old(self).wf(),
        ensures
            final(self).wf(),
            old(self).count(p) == 0,
            final(self).count(p) == 1,
            final(self).storage(p) == made_storage(old(self).supply, seed, kind),
            forall|q: u64| q != p ==> #[trigger] final(self).count(q) == old(self).count(q),
            forall|q: u64|
                old(self).live(q) ==> #[trigger] final(self).storage(q) == old(self).storage(q),
            alloc_supply(old(self).supply, kind, FRAME_LEN as int, final(self).supply),
            final(self).calls@ == old(self).calls@ + bracket(
                made_storage(old(self).supply, seed, kind),
                Access::Write,
                Seq::empty(),
            ),
            keeps(*old(self), *final(self)),
            transfer(*old(self), *final(self), nothing(), one(p)),
    {
        let mut storage = Storage::allocate_or_heap(&mut self.supply, kind, FRAME_LEN);
        storage.open(Access::Write, &mut self.calls);
        write_pattern(storage.bytes_mut(), seed);
        storage.close(Access::Write, &mut self.calls);
        assert(storage@ =~= made_storage(old(self).supply, seed, kind));
        assert(self.calls@ =~= old(self).calls@ + bracket(
            made_storage(old(self).supply, seed, kind),
            Access::Write,
            Seq::empty(),
        ));
        self.insert(storage)
    }

    /// Hands out what the platform is asked to do, in order.
    pub fn take_calls(&mut self) -> (r: Vec<PlatformCall>)
        ensures
            r@ == old(self).calls@,
            final(self).calls@ == Seq::<PlatformCall>::empty(),
            final(self).slots == old(self).slots,
            final(self).supply == old(self).supply,
    {
        let mut out: Vec<PlatformCall> = Vec::new();
        core::mem::swap(&mut out, &mut self.calls);
        out
    }
}

} // verus!
