//! Frame storage: process-local memory, Linux DMA-BUF and macOS `IOSurface`.
//! All three offer the same byte view, so views, copy-on-write and reference
//! counts do not depend on where a frame lives; `export` yields the
//! descriptor for other processes.
//!
//! What the operating system must do (synchronise a mapping, lock a surface,
//! give a buffer back) is recorded as `PlatformCall`s, in the order in which
//! they are to be made.

use vstd::prelude::*;
use crate::abi::{
    AFrameDescV1, AStatus, A_STORAGE_DMABUF, A_STORAGE_HEAP, A_STORAGE_IOSURFACE,
};
use crate::dmabuf::{DmaBuf, SYNC_END, SYNC_READ, SYNC_RW, SYNC_START};
use crate::iosurface::{Surface, LOCK_READ_ONLY};

verus! {

/// What a descriptor holds where there is no file descriptor.
pub const NO_FD: i32 = -1;

/// The operating system that the library runs on, as far as storage kinds
/// depend on it. Android counts as Linux.
#[derive(Debug, Clone, Copy, PartialEq, Eq, Structural)]
pub enum Platform {
    Linux,
    Macos,
    Other,
}

impl Platform {
    /// Whether `kind` is a storage kind of this platform.
    pub open spec fn knows(self, kind: u32) -> bool {
        ||| kind == A_STORAGE_HEAP
        ||| self == Platform::Linux && kind == A_STORAGE_DMABUF
        ||| self == Platform::Macos && kind == A_STORAGE_IOSURFACE
    }
}

/// A buffer that the operating system has handed to this process and that
/// backs no frame yet. On Linux `fd` is the DMA-BUF descriptor; on macOS
/// `id` is the global surface identifier.
#[derive(Debug, Clone, Copy, PartialEq, Eq, Structural)]
pub struct Grant {
    pub fd: i32,
    pub id: u32,
    pub len: usize,
}

/// The platform and the buffers that it has granted so far.
pub struct Supply {
    pub platform: Platform,
    pub grants: Vec<Grant>,
}

/// Index of the first grant of at least `len` bytes, or the number of grants
/// where there is none.
pub open spec fn first_fit(grants: Seq<Grant>, len: int) -> int
    decreases grants.len(),
{
    if grants.len() == 0 || grants[0].len >= len {
        0
    } else {
        1 + first_fit(grants.drop_first(), len)
    }
}

/// `first_fit` is the least index whose grant is long enough.
pub proof fn lemma_first_fit(grants: Seq<Grant>, len: int, i: int)
    requires
        0 <= i <= grants.len(),
        forall|j: int| 0 <= j < i ==> (#[trigger] grants[j]).len < len,
        i < grants.len() ==> grants[i].len >= len,
    ensures
        first_fit(grants, len) == i,
    decreases grants.len(),
{
    if i > 0 {
        let rest = grants.drop_first();
        assert forall|j: int| 0 <= j < i - 1 implies (#[trigger] rest[j]).len < len by {
            assert(rest[j] == grants[j + 1]);
        }
        assert(i < grants.len() ==> rest[i - 1] == grants[i]);
        lemma_first_fit(rest, len, i - 1);
        assert(grants[0].len < len);
    }
}

/// Where `first_fit` points at a grant, that grant is long enough.
pub proof fn lemma_first_fit_is_fit(grants: Seq<Grant>, len: int)
    ensures
        0 <= first_fit(grants, len) <= grants.len(),
        first_fit(grants, len) < grants.len() ==> grants[first_fit(grants, len)].len >= len,
    decreases grants.len(),
{
    if grants.len() > 0 && grants[0].len < len {
        lemma_first_fit_is_fit(grants.drop_first(), len);
    }
}

impl Supply {
    /// Whether some grant has at least `len` bytes.
    pub open spec fn can_supply(self, len: int) -> bool {
        first_fit(self.grants@, len) < self.grants@.len()
    }

    /// The supply after the first grant of at least `len` bytes was used.
    pub open spec fn after_take(self, len: int, post: Supply) -> bool {
        &&& post.platform == self.platform
        &&& post.grants@ == if self.can_supply(len) {
            self.grants@.remove(first_fit(self.grants@, len))
        } else {
            self.grants@
        }
    }

    /// A supply without grants.
    pub fn new(platform: Platform) -> (r: Supply)
        ensures
            r.platform == platform,
            r.grants@ == Seq::<Grant>::empty(),
    {
        Supply { platform, grants: Vec::new() }
    }

    /// Adds a buffer that the operating system handed over.
    pub fn grant(&mut self, g: Grant)
        ensures
            final(self).platform == old(self).platform,
            final(self).grants@ == old(self).grants@.push(g),
    {
        self.grants.push(g);
    }

    /// Takes the first grant of at least `len` bytes, if there is one.
    pub fn take(&mut self, len: usize) -> (r: Option<Grant>)
        ensures
            r == (if old(self).can_supply(len as int) {
                Some(old(self).grants@[first_fit(old(self).grants@, len as int)])
            } else {
                None
            }),
            old(self).after_take(len as int, *final(self)),
    {
        let n = self.grants.len();
        let mut i: usize = 0;
        while i < n
            invariant
                n == self.grants@.len(),
                i <= n,
                *self == *old(self),
                forall|j: int| 0 <= j < i ==> (#[trigger] self.grants@[j]).len < len,
            decreases n - i,
        {
            if self.grants[i].len >= len {
                proof {
                    lemma_first_fit(self.grants@, len as int, i as int);
                }
                return Some(self.grants.remove(i));
            }
            i = i + 1;
        }
        proof {
            lemma_first_fit(self.grants@, len as int, n as int);
        }
        None
    }
}

/// A request to the operating system, made once per record and in order.
#[derive(Debug, Clone, Copy, PartialEq, Eq, Structural)]
pub enum PlatformCall {
    /// `DMA_BUF_IOCTL_SYNC` with these flags.
    DmaSync { fd: i32, flags: u64 },
    /// `IOSurfaceLock` with these options.
    SurfaceLock { id: u32, options: u32 },
    /// `IOSurfaceUnlock` with these options.
    SurfaceUnlock { id: u32, options: u32 },
    /// Unmap the buffer and close its descriptor.
    DmaFree { fd: i32 },
    /// Release the lifetime lock and the surface.
    SurfaceFree { id: u32 },
}

/// How the library touches the bytes inside one bracket.
#[derive(Debug, Clone, Copy, PartialEq, Eq, Structural)]
pub enum Access {
    Read,
    Write,
}

/// Where a frame's bytes live.
pub enum Storage {
    Heap(Vec<u8>),
    DmaBuf(DmaBuf),
    IoSurface(Surface),
}

/// A storage as a value: its kind, the handle of its buffer, its bytes.
#[verifier::ext_equal]
pub struct StorageView {
    pub kind: u32,
    pub fd: i32,
    pub id: u32,
    pub bytes: Seq<u8>,
}

impl View for Storage {
    type V = StorageView;

    open spec fn view(&self) -> StorageView {
        match *self {
            Storage::Heap(v) => StorageView { kind: A_STORAGE_HEAP, fd: NO_FD, id: 0, bytes: v@ },
            Storage::DmaBuf(d) => StorageView {
                kind: A_STORAGE_DMABUF,
                fd: d.fd,
                id: 0,
                bytes: d.bytes@,
            },
            Storage::IoSurface(s) => StorageView {
                kind: A_STORAGE_IOSURFACE,
                fd: NO_FD,
                id: s.id,
                bytes: s.bytes@,
            },
        }
    }
}

/// `len` zero bytes.
pub open spec fn zeros(len: int) -> Seq<u8> {
    Seq::new(len as nat, |i: int| 0u8)
}

/// The call that opens a bracket around an access, none for heap storage.
pub open spec fn open_calls(s: StorageView, a: Access) -> Seq<PlatformCall> {
    if s.kind == A_STORAGE_DMABUF {
        seq![
            PlatformCall::DmaSync {
                fd: s.fd,
                flags: match a {
                    Access::Read => SYNC_START | SYNC_READ,
                    Access::Write => SYNC_START | SYNC_RW,
                },
            },
        ]
    } else if s.kind == A_STORAGE_IOSURFACE {
        seq![
            PlatformCall::SurfaceLock {
                id: s.id,
                options: match a {
                    Access::Read => LOCK_READ_ONLY,
                    Access::Write => 0,
                },
            },
        ]
    } else {
        Seq::empty()
    }
}

/// The call that closes the bracket that `open_calls` opened.
pub open spec fn close_calls(s: StorageView, a: Access) -> Seq<PlatformCall> {
    if s.kind == A_STORAGE_DMABUF {
        seq![
            PlatformCall::DmaSync {
                fd: s.fd,
                flags: match a {
                    Access::Read => SYNC_END | SYNC_READ,
                    Access::Write => SYNC_END | SYNC_RW,
                },
            },
        ]
    } else if s.kind == A_STORAGE_IOSURFACE {
        seq![
            PlatformCall::SurfaceUnlock {
                id: s.id,
                options: match a {
                    Access::Read => LOCK_READ_ONLY,
                    Access::Write => 0,
                },
            },
        ]
    } else {
        Seq::empty()
    }
}

/// One whole bracket: opened, `inner`, closed.
pub open spec fn bracket(s: StorageView, a: Access, inner: Seq<PlatformCall>) -> Seq<PlatformCall> {
    open_calls(s, a) + inner + close_calls(s, a)
}

/// What gives the storage back to the operating system.
pub open spec fn free_calls(s: StorageView) -> Seq<PlatformCall> {
    if s.kind == A_STORAGE_DMABUF {
        seq![PlatformCall::DmaFree { fd: s.fd }]
    } else if s.kind == A_STORAGE_IOSURFACE {
        seq![PlatformCall::SurfaceFree { id: s.id }]
    } else {
        Seq::empty()
    }
}

/// The outcome of an allocation: zeroed storage of the kind that was asked
/// for; `InvalidArgument` for a kind that the platform does not have;
/// `Unavailable` for one that it has but cannot supply now.
pub open spec fn alloc_outcome(supply: Supply, kind: u32, len: int) -> Result<
    StorageView,
    AStatus,
> {
    if kind == A_STORAGE_HEAP {
        Ok(StorageView { kind, fd: NO_FD, id: 0, bytes: zeros(len) })
    } else if !supply.platform.knows(kind) {
        Err(AStatus::InvalidArgument)
    } else if !supply.can_supply(len) {
        Err(AStatus::Unavailable)
    } else {
        let g = supply.grants@[first_fit(supply.grants@, len)];
        Ok(
            if kind == A_STORAGE_DMABUF {
                StorageView { kind, fd: g.fd, id: 0, bytes: zeros(len) }
            } else {
                StorageView { kind, fd: NO_FD, id: g.id, bytes: zeros(len) }
            },
        )
    }
}

/// The supply after an allocation: a grant is used only for a platform kind.
pub open spec fn alloc_supply(pre: Supply, kind: u32, len: int, post: Supply) -> bool {
    if kind != A_STORAGE_HEAP && pre.platform.knows(kind) {
        pre.after_take(len, post)
    } else {
        post.platform == pre.platform && post.grants@ == pre.grants@
    }
}

/// What an allocation falls back to: heap storage where the kind cannot be
/// had.
pub open spec fn alloc_or_heap(supply: Supply, kind: u32, len: int) -> StorageView {
    match alloc_outcome(supply, kind, len) {
        Ok(s) => s,
        Err(_) => StorageView { kind: A_STORAGE_HEAP, fd: NO_FD, id: 0, bytes: zeros(len) },
    }
}

/// A vector of zero bytes.
pub(crate) fn zeroed(len: usize) -> (v: Vec<u8>)
    ensures
        v@ == zeros(len as int),
{
    let v: Vec<u8> = vec![0u8;len];
    assert(v@ =~= zeros(len as int));
    v
}

impl Storage {
    /// Allocates zeroed storage of the given kind.
    pub fn allocate(supply: &mut Supply, kind: u32, len: usize) -> (r: Result<Storage, AStatus>)
        ensures
            match r {
                Ok(s) => alloc_outcome(*old(supply), kind, len as int) == Ok::<
                    StorageView,
                    AStatus,
                >(s@),
                Err(e) => alloc_outcome(*old(supply), kind, len as int) == Err::<
                    StorageView,
                    AStatus,
                >(e),
            },
            alloc_supply(*old(supply), kind, len as int, *final(supply)),
    {
        if kind == A_STORAGE_HEAP {
            return Ok(Storage::Heap(zeroed(len)));
        }
        match supply.platform {
            Platform::Linux => {
                if kind != A_STORAGE_DMABUF {
                    return Err(AStatus::InvalidArgument);
                }
            },
            Platform::Macos => {
                if kind != A_STORAGE_IOSURFACE {
                    return Err(AStatus::InvalidArgument);
                }
            },
            Platform::Other => {
                return Err(AStatus::InvalidArgument);
            },
        }
        match supply.take(len) {
            None => Err(AStatus::Unavailable),
            Some(g) => Ok(
                if kind == A_STORAGE_DMABUF {
                    Storage::DmaBuf(DmaBuf { fd: g.fd, bytes: zeroed(len) })
                } else {
                    Storage::IoSurface(Surface { id: g.id, bytes: zeroed(len) })
                },
            ),
        }
    }

    /// Allocates storage of the given kind, or heap storage where that kind
    /// cannot be had now.
    pub fn allocate_or_heap(supply: &mut Supply, kind: u32, len: usize) -> (r: Storage)
        ensures
            r@ == alloc_or_heap(*old(supply), kind, len as int),
            alloc_supply(*old(supply), kind, len as int, *final(supply)),
    {
        match Storage::allocate(supply, kind, len) {
            Ok(s) => s,
            Err(_) => Storage::Heap(zeroed(len)),
        }
    }

    /// The storage kind.
    pub fn kind(&self) -> (r: u32)
        ensures
            r == self@.kind,
    {
        match self {
            Storage::Heap(_) => A_STORAGE_HEAP,
            Storage::DmaBuf(_) => A_STORAGE_DMABUF,
            Storage::IoSurface(_) => A_STORAGE_IOSURFACE,
        }
    }

    /// The bytes, without a bracket: cache maintenance belongs to whoever
    /// reads through the view.
    pub fn bytes(&self) -> (r: &[u8])
        ensures
            r@ == self@.bytes,
    {
        match self {
            Storage::Heap(v) => v.as_slice(),
            Storage::DmaBuf(d) => d.bytes(),
            Storage::IoSurface(s) => s.bytes(),
        }
    }

    /// The bytes for writing, without a bracket.
    pub fn bytes_mut(&mut self) -> (r: &mut [u8])
        ensures
            r@ == old(self)@.bytes,
            final(self)@ == (StorageView { bytes: final(r)@, ..old(self)@ }),
    {
        match self {
            Storage::Heap(v) => v.as_mut_slice(),
            Storage::DmaBuf(d) => d.bytes_mut(),
            Storage::IoSurface(s) => s.bytes_mut(),
        }
    }

    /// Opens a bracket around an access by the library.
    pub fn open(&self, a: Access, calls: &mut Vec<PlatformCall>)
        ensures
            final(calls)@ == old(calls)@ + open_calls(self@, a),
    {
        match self {
            Storage::Heap(_) => {
                assert(calls@ =~= old(calls)@ + open_calls(self@, a));
            },
            Storage::DmaBuf(d) => calls.push(
                d.sync(
                    SYNC_START | match a {
                        Access::Read => SYNC_READ,
                        Access::Write => SYNC_RW,
                    },
                ),
            ),
            Storage::IoSurface(s) => calls.push(
                s.lock(
                    match a {
                        Access::Read => LOCK_READ_ONLY,
                        Access::Write => 0,
                    },
                ),
            ),
        }
    }

    /// Closes the bracket that `open` with the same access opened.
    pub fn close(&self, a: Access, calls: &mut Vec<PlatformCall>)
        ensures
            final(calls)@ == old(calls)@ + close_calls(self@, a),
    {
        match self {
            Storage::Heap(_) => {
                assert(calls@ =~= old(calls)@ + close_calls(self@, a));
            },
            Storage::DmaBuf(d) => calls.push(
                d.sync(
                    SYNC_END | match a {
                        Access::Read => SYNC_READ,
                        Access::Write => SYNC_RW,
                    },
                ),
            ),
            Storage::IoSurface(s) => calls.push(
                s.unlock(
                    match a {
                        Access::Read => LOCK_READ_ONLY,
                        Access::Write => 0,
                    },
                ),
            ),
        }
    }

    /// Gives the storage back to the operating system.
    pub fn free(self, calls: &mut Vec<PlatformCall>)
        ensures
            final(calls)@ == old(calls)@ + free_calls(self@),
    {
        match self {
            Storage::Heap(_) => {
                assert(calls@ =~= old(calls)@ + free_calls(self@));
            },
            Storage::DmaBuf(d) => calls.push(PlatformCall::DmaFree { fd: d.fd }),
            Storage::IoSurface(s) => calls.push(PlatformCall::SurfaceFree { id: s.id }),
        }
    }

    /// The descriptor for other processes. `dup` is what duplicating the
    /// DMA-BUF descriptor returned; only DMA-BUF storage reports it.
    pub fn export(&self, dup: i32) -> (r: AFrameDescV1)
        ensures
            r == exported(self@, dup),
            r.kind == self@.kind,
            r.offset == 0,
            r.offset + r.len == self@.bytes.len(),
    {
        let mut desc = AFrameDescV1 {
            kind: self.kind(),
            _pad: 0,
            fd: NO_FD,
            id: 0,
            offset: 0,
            len: self.bytes().len(),
        };
        match self {
            Storage::Heap(_) => {},
            Storage::DmaBuf(_) => {
                desc.fd = dup;
            },
            Storage::IoSurface(s) => {
                desc.id = s.id;
            },
        }
        desc
    }

    /// A detached copy in storage of the same kind, or in heap storage where
    /// that kind cannot be had now. The source is read inside a bracket, the
    /// copy is written inside one.
    pub fn duplicate(&self, supply: &mut Supply, calls: &mut Vec<PlatformCall>) -> (r: Storage)
        ensures
            r@ == duplicated(self@, *old(supply)),
            r@.bytes == self@.bytes,
            old(supply).platform.knows(self@.kind) && (self@.kind == A_STORAGE_HEAP || old(
                supply,
            ).can_supply(self@.bytes.len() as int)) ==> r@.kind == self@.kind,
            alloc_supply(
                *old(supply),
                self@.kind,
                self@.bytes.len() as int,
                *final(supply),
            ),
            final(calls)@ == old(calls)@ + duplicate_calls(self@, *old(supply)),
    {
        self.open(Access::Read, calls);
        let len = self.bytes().len();
        let mut fresh = Storage::allocate_or_heap(supply, self.kind(), len);
        let ghost fresh0 = fresh@;
        fresh.open(Access::Write, calls);
        copy_bytes(self.bytes(), fresh.bytes_mut());
        fresh.close(Access::Write, calls);
        self.close(Access::Read, calls);
        proof {
            assert(fresh@ =~= duplicated(self@, *old(supply)));
            assert(open_calls(fresh0, Access::Write) == open_calls(fresh@, Access::Write));
            assert(calls@ =~= old(calls)@ + duplicate_calls(self@, *old(supply)));
        }
        fresh
    }
}

/// The descriptor of a storage.
pub open spec fn exported(s: StorageView, dup: i32) -> AFrameDescV1 {
    AFrameDescV1 {
        kind: s.kind,
        _pad: 0,
        fd: if s.kind == A_STORAGE_DMABUF { dup } else { NO_FD },
        id: if s.kind == A_STORAGE_IOSURFACE { s.id } else { 0 },
        offset: 0,
        len: s.bytes.len() as usize,
    }
}

/// A copy: the same bytes in freshly allocated storage.
pub open spec fn duplicated(s: StorageView, supply: Supply) -> StorageView {
    StorageView {
        bytes: s.bytes,
        ..alloc_or_heap(supply, s.kind, s.bytes.len() as int)
    }
}

/// The brackets of a copy: the write of the copy inside the read of the
/// source.
pub open spec fn duplicate_calls(s: StorageView, supply: Supply) -> Seq<PlatformCall> {
    bracket(s, Access::Read, bracket(duplicated(s, supply), Access::Write, Seq::empty()))
}

/// Copies `src` over `dst`.
pub fn copy_bytes(src: &[u8], dst: &mut [u8])
    requires
        src@.len() == old(dst)@.len(),
    ensures
        final(dst)@ == src@,
{
    let n = src.len();
    let mut i: usize = 0;
    while i < n
        invariant
            n == src@.len(),
            dst@.len() == n,
            i <= n,
            forall|j: int| 0 <= j < i ==> dst@[j] == src@[j],
        decreases n - i,
    {
        dst[i] = src[i];
        i = i + 1;
    }
    assert(dst@ =~= src@);
}

/// How often `c` stands in `calls`.
pub open spec fn times(calls: Seq<PlatformCall>, c: PlatformCall) -> nat
    decreases calls.len(),
{
    if calls.len() == 0 {
        0
    } else {
        times(calls.drop_last(), c) + if calls.last() == c {
            1nat
        } else {
            0
        }
    }
}

/// Every bracket that `calls` opens on a buffer it also closes with the same
/// access, and the other way round.
pub open spec fn balanced(calls: Seq<PlatformCall>) -> bool {
    &&& forall|fd: i32, dir: u64|
        dir == SYNC_READ || dir == SYNC_RW ==> #[trigger] times(
            calls,
            PlatformCall::DmaSync { fd, flags: SYNC_START | dir },
        ) == times(calls, PlatformCall::DmaSync { fd, flags: SYNC_END | dir })
    &&& forall|id: u32, options: u32| #[trigger]
        times(calls, PlatformCall::SurfaceLock { id, options }) == times(
            calls,
            PlatformCall::SurfaceUnlock { id, options },
        )
}

/// Counting a call over two sequences, one after the other.
pub proof fn lemma_times_add(a: Seq<PlatformCall>, b: Seq<PlatformCall>, c: PlatformCall)
    ensures
        times(a + b, c) == times(a, c) + times(b, c),
    decreases b.len(),
{
    if b.len() == 0 {
        assert(a + b =~= a);
    } else {
        assert((a + b).drop_last() =~= a + b.drop_last());
        lemma_times_add(a, b.drop_last(), c);
    }
}

/// Counting a call in a sequence of at most one.
pub proof fn lemma_times_one(s: Seq<PlatformCall>, c: PlatformCall)
    requires
        s.len() <= 1,
    ensures
        times(s, c) == if s.len() == 1 && s[0] == c {
            1nat
        } else {
            0
        },
{
    reveal_with_fuel(times, 2);
}

/// The flags of the four kinds of bracket end are distinct.
proof fn lemma_sync_flags()
    ensures
        SYNC_START | SYNC_READ == 1,
        SYNC_START | SYNC_RW == 3,
        SYNC_END | SYNC_READ == 5,
        SYNC_END | SYNC_RW == 7,
{
    assert(0u64 | 1u64 == 1 && 0u64 | 3u64 == 3 && 4u64 | 1u64 == 5 && 4u64 | 3u64 == 7)
        by (bit_vector);
}

/// A bracket around balanced calls is balanced: what the library opens it
/// closes, on every storage kind and for every access.
pub proof fn law_bracket_balanced(s: StorageView, a: Access, inner: Seq<PlatformCall>)
    requires
        balanced(inner),
    ensures
        balanced(bracket(s, a, inner)),
{
    let o = open_calls(s, a);
    let k = close_calls(s, a);
    lemma_sync_flags();
    assert forall|c: PlatformCall| #[trigger]
        times(bracket(s, a, inner), c) == times(o, c) + times(inner, c) + times(k, c) by {
        lemma_times_add(o + inner, k, c);
        lemma_times_add(o, inner, c);
    }
    assert forall|fd: i32, dir: u64| dir == SYNC_READ || dir == SYNC_RW implies #[trigger] times(
        bracket(s, a, inner),
        PlatformCall::DmaSync { fd, flags: SYNC_START | dir },
    ) == times(
        bracket(s, a, inner),
        PlatformCall::DmaSync { fd, flags: SYNC_END | dir },
    ) by {
        lemma_times_one(o, PlatformCall::DmaSync { fd, flags: SYNC_START | dir });
        lemma_times_one(k, PlatformCall::DmaSync { fd, flags: SYNC_START | dir });
        lemma_times_one(o, PlatformCall::DmaSync { fd, flags: SYNC_END | dir });
        lemma_times_one(k, PlatformCall::DmaSync { fd, flags: SYNC_END | dir });
        assert(times(inner, PlatformCall::DmaSync { fd, flags: SYNC_START | dir }) == times(
            inner,
            PlatformCall::DmaSync { fd, flags: SYNC_END | dir },
        ));
    }
    assert forall|id: u32, options: u32| #[trigger]
        times(bracket(s, a, inner), PlatformCall::SurfaceLock { id, options }) == times(
            bracket(s, a, inner),
            PlatformCall::SurfaceUnlock { id, options },
        ) by {
        lemma_times_one(o, PlatformCall::SurfaceLock { id, options });
        lemma_times_one(k, PlatformCall::SurfaceLock { id, options });
        lemma_times_one(o, PlatformCall::SurfaceUnlock { id, options });
        lemma_times_one(k, PlatformCall::SurfaceUnlock { id, options });
        assert(times(inner, PlatformCall::SurfaceLock { id, options }) == times(
            inner,
            PlatformCall::SurfaceUnlock { id, options },
        ));
    }
}

/// Balanced calls, one run after the other, are balanced; giving a buffer back
/// opens and closes nothing.
pub proof fn law_balanced_calls_compose(a: Seq<PlatformCall>, b: Seq<PlatformCall>, s: StorageView)
    requires
        balanced(a),
        balanced(b),
    ensures
        balanced(a + b),
        balanced(free_calls(s)),
{
    assert forall|c: PlatformCall| #[trigger] times(a + b, c) == times(a, c) + times(b, c) by {
        lemma_times_add(a, b, c);
    }
    assert forall|fd: i32, dir: u64| dir == SYNC_READ || dir == SYNC_RW implies #[trigger] times(
        a + b,
        PlatformCall::DmaSync { fd, flags: SYNC_START | dir },
    ) == times(a + b, PlatformCall::DmaSync { fd, flags: SYNC_END | dir }) by {
        assert(times(a, PlatformCall::DmaSync { fd, flags: SYNC_START | dir }) == times(
            a,
            PlatformCall::DmaSync { fd, flags: SYNC_END | dir },
        ));
        assert(times(b, PlatformCall::DmaSync { fd, flags: SYNC_START | dir }) == times(
            b,
            PlatformCall::DmaSync { fd, flags: SYNC_END | dir },
        ));
    }
    assert forall|id: u32, options: u32| #[trigger]
        times(a + b, PlatformCall::SurfaceLock { id, options }) == times(
            a + b,
            PlatformCall::SurfaceUnlock { id, options },
        ) by {
        assert(times(a, PlatformCall::SurfaceLock { id, options }) == times(
            a,
            PlatformCall::SurfaceUnlock { id, options },
        ));
        assert(times(b, PlatformCall::SurfaceLock { id, options }) == times(
            b,
            PlatformCall::SurfaceUnlock { id, options },
        ));
    }
    let f = free_calls(s);
    assert forall|c: PlatformCall| !(c is DmaFree) && !(c is SurfaceFree) implies #[trigger] times(
        f,
        c,
    ) == 0 by {
        lemma_times_one(f, c);
    }
}

/// A copy opens and closes its brackets in pairs.
pub proof fn law_duplicate_balanced(s: StorageView, supply: Supply)
    ensures
        balanced(duplicate_calls(s, supply)),
{
    assert(balanced(Seq::empty()));
    law_bracket_balanced(duplicated(s, supply), Access::Write, Seq::empty());
    law_bracket_balanced(
        s,
        Access::Read,
        bracket(duplicated(s, supply), Access::Write, Seq::empty()),
    );
}

/// Heap storage can always be had, and a kind is refused as invalid exactly
/// where the platform does not have it, however much it has granted.
pub proof fn law_alloc_refusals(supply: Supply, kind: u32, len: int)
    ensures
        alloc_outcome(supply, A_STORAGE_HEAP, len) is Ok,
        alloc_outcome(supply, kind, len) == Err::<StorageView, AStatus>(AStatus::InvalidArgument)
            <==> !supply.platform.knows(kind),
        alloc_outcome(supply, kind, len) == Err::<StorageView, AStatus>(AStatus::Unavailable)
            <==> kind != A_STORAGE_HEAP && supply.platform.knows(kind) && !supply.can_supply(len),
{
}

/// Allocated storage is zeroed, has the length and the kind that were asked
/// for, and the fallback differs from it at most in the kind.
pub proof fn law_alloc_contents(supply: Supply, kind: u32, len: int)
    requires
        0 <= len,
    ensures
        alloc_outcome(supply, kind, len) matches Ok(s) ==> s.kind == kind && s.bytes == zeros(len)
            && alloc_or_heap(supply, kind, len) == s,
        alloc_outcome(supply, kind, len) is Err ==> alloc_or_heap(supply, kind, len).kind
            == A_STORAGE_HEAP,
        alloc_or_heap(supply, kind, len).bytes == zeros(len),
{
}

} // verus!
