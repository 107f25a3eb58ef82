//! What storage, frames and the payload come to, in plain terms: kinds,
//! handles, bytes, and what is asked of the platform for them.

use vstd::prelude::*;
use crate::abi::{ASharedV1, AStatus};
use crate::amod::plain_desc;
use crate::b::{fast_factors, summed};
use crate::capturing::captured;
use crate::dmabuf::{SYNC_END, SYNC_READ, SYNC_RW, SYNC_START};
use crate::frame::exported2;
use crate::heap::{
    alloc_effect, detach_calls, detach_supply, detached, effect, frame_geometry, freed, freed_all,
    made_storage, making_calls, occurrences, one, pattern, sum_bytes, transfer, Heap, FRAME_LEN,
};
use crate::lifecycle::entry_of;
use crate::source::{
    filled, frame_stored, fresh_payload, new_state, new_window, storage_answer, stored,
    ProducerStep, State,
};
use crate::storage::{
    alloc_or_heap, alloc_outcome, alloc_supply, bracket, close_calls, duplicate_calls, duplicated,
    exported, first_fit, free_calls, lemma_first_fit, lemma_first_fit_is_fit, open_calls, Access,
    Grant, Platform, PlatformCall, Storage, StorageView, Supply,
};
use crate::streaming::{frame_seed, producer_effect};
use crate::sub::replaced_calls;
use crate::teardown::closing_bufs;

verus! {

/// Whether `i` is the first grant of at least `len` bytes.
pub open spec fn is_first_fit(grants: Seq<Grant>, len: int, i: int) -> bool {
    &&& 0 <= i < grants.len()
    &&& grants[i].len >= len
    &&& forall|j: int| 0 <= j < i ==> (#[trigger] grants[j]).len < len
}

/// Whether a platform has storage of `kind`: every one has the heap, Linux
/// has DMA-BUF, macOS has surfaces.
pub open spec fn has_kind(p: Platform, kind: u32) -> bool {
    match p {
        Platform::Linux => kind == 0 || kind == 1,
        Platform::Macos => kind == 0 || kind == 2,
        Platform::Other => kind == 0,
    }
}

/// Whether storage of `kind` with `len` bytes can be had now: heap storage
/// always, a kind of the platform where it has granted a buffer that is long
/// enough.
pub open spec fn can_be_had(supply: Supply, kind: u32, len: int) -> bool {
    kind == 0 || (has_kind(supply.platform, kind) && exists|i: int|
        0 <= i < supply.grants@.len() && (#[trigger] supply.grants@[i]).len >= len)
}

/// Whether `v` is on the first granted buffer that is long enough.
pub open spec fn on_granted_buffer(supply: Supply, len: int, v: StorageView) -> bool {
    forall|i: int| #[trigger]
        is_first_fit(supply.grants@, len, i) ==> {
            &&& v.kind == 1 ==> v.fd == supply.grants@[i].fd && v.id == 0
            &&& v.kind == 2 ==> v.id == supply.grants@[i].id && v.fd == -1
        }
}

/// Whether `v` is what asking for `kind` comes to: storage of that kind where
/// it can be had, on the buffer that was granted for it; else process-local
/// heap storage, which has neither descriptor nor identifier.
pub open spec fn of_kind_or_heap(supply: Supply, kind: u32, len: int, v: StorageView) -> bool {
    &&& can_be_had(supply, kind, len) ==> v.kind == kind
    &&& !can_be_had(supply, kind, len) ==> v.kind == 0
    &&& v.kind == 0 ==> v.fd == -1 && v.id == 0
    &&& on_granted_buffer(supply, len, v)
}

/// The first fit, whichever way it is told, is one grant.
proof fn lemma_fit(supply: Supply, len: int)
    ensures
        supply.can_supply(len) <==> exists|i: int|
            0 <= i < supply.grants@.len() && (#[trigger] supply.grants@[i]).len >= len,
        forall|i: int| #[trigger]
            is_first_fit(supply.grants@, len, i) ==> supply.can_supply(len) && i == first_fit(
                supply.grants@,
                len,
            ),
    decreases supply.grants@.len(),
{
    let g = supply.grants@;
    lemma_first_fit_is_fit(g, len);
    assert forall|i: int| #[trigger] is_first_fit(g, len, i) implies i == first_fit(g, len) by {
        lemma_first_fit(g, len, i);
    }
    if exists|i: int| 0 <= i < g.len() && (#[trigger] g[i]).len >= len {
        let i = choose|i: int| 0 <= i < g.len() && (#[trigger] g[i]).len >= len;
        lemma_fit_exists(g, len, i);
    }
}

/// Where a grant is long enough, there is a first one.
proof fn lemma_fit_exists(g: Seq<Grant>, len: int, i: int)
    requires
        0 <= i < g.len(),
        g[i].len >= len,
    ensures
        first_fit(g, len) <= i,
    decreases g.len(),
{
    if g[0].len < len {
        lemma_fit_exists(g.drop_first(), len, i - 1);
    }
}

/// A storage is what it is made of: plain bytes are heap storage without any
/// handle, a DMA-BUF is known by its descriptor, a surface by its identifier.
pub proof fn law_storage_is_what_it_is_made_of(s: Storage)
    ensures
        match s {
            Storage::Heap(v) => s@.kind == 0 && s@.fd == -1 && s@.id == 0 && s@.bytes == v@,
            Storage::DmaBuf(d) => s@.kind == 1 && s@.fd == d.fd && s@.id == 0 && s@.bytes
                == d.bytes@,
            Storage::IoSurface(f) => s@.kind == 2 && s@.fd == -1 && s@.id == f.id && s@.bytes
                == f.bytes@,
        },
{
}

/// An allocation gives zeroed storage of the kind and length that were asked
/// for, on a buffer that was granted for it, exactly where that kind can be
/// had; it says that the argument is invalid exactly where the platform has
/// no such kind, and that it is unavailable where it only has none to give.
pub proof fn law_allocation_is_what_was_asked(supply: Supply, kind: u32, len: int)
    requires
        0 <= len,
    ensures
        match alloc_outcome(supply, kind, len) {
            Ok(v) => {
                &&& can_be_had(supply, kind, len)
                &&& v.kind == kind
                &&& v.bytes.len() == len
                &&& forall|k: int| 0 <= k < len ==> #[trigger] v.bytes[k] == 0
                &&& of_kind_or_heap(supply, kind, len, v)
            },
            Err(e) => {
                &&& !can_be_had(supply, kind, len)
                &&& e == AStatus::InvalidArgument <==> !has_kind(supply.platform, kind)
                &&& e == AStatus::Unavailable <==> has_kind(supply.platform, kind)
            },
        },
        storage_answer(supply, kind, len) is Ok <==> can_be_had(supply, kind, len),
        storage_answer(supply, kind, len) matches Err(e) ==> e == if has_kind(
            supply.platform,
            kind,
        ) {
            AStatus::Unavailable
        } else {
            AStatus::InvalidArgument
        },
        of_kind_or_heap(supply, kind, len, alloc_or_heap(supply, kind, len)),
        alloc_or_heap(supply, kind, len).bytes.len() == len,
        forall|k: int|
            0 <= k < len ==> #[trigger] alloc_or_heap(supply, kind, len).bytes[k] == 0,
{
    lemma_fit(supply, len);
}

/// A grant is used up by the storage that is made on it, and by nothing else:
/// not by heap storage, not by a kind that the platform does not have, and
/// not where no grant is long enough.
pub proof fn law_allocation_takes_its_grant(
    pre: Supply,
    kind: u32,
    len: int,
    post: Supply,
    i: int,
)
    requires
        alloc_supply(pre, kind, len, post),
    ensures
        post.platform == pre.platform,
        kind != 0 && has_kind(pre.platform, kind) && is_first_fit(pre.grants@, len, i)
            ==> post.grants@ == pre.grants@.remove(i),
        kind == 0 || !can_be_had(pre, kind, len) ==> post.grants@ == pre.grants@,
{
    lemma_fit(pre, len);
}

/// A detached copy has the bytes of its source, in storage of the same kind
/// wherever that can be had, on the buffer that was granted for it; it is
/// heap storage only where that kind cannot be had.
pub proof fn law_copy_keeps_kind_and_bytes(s: StorageView, supply: Supply)
    ensures
        duplicated(s, supply).bytes == s.bytes,
        of_kind_or_heap(supply, s.kind, s.bytes.len() as int, duplicated(s, supply)),
{
    lemma_fit(supply, s.bytes.len() as int);
}

/// A refill leaves bytes that count up from the seed. Where somebody else
/// holds the payload too, it goes to a buffer of the same kind wherever that
/// can be had, on the buffer that was granted for it, and to the heap only
/// where it cannot; where nobody does, it stays where it is.
pub proof fn law_refill_keeps_the_kind(pre: Heap, post: Heap, p: u64, r: u64, seed: u8, i: int)
    requires
        pre.wf(),
        pre.live(p),
        filled(pre, post, p, r, seed),
    ensures
        post.bytes_at(r).len() == 4096,
        forall|k: int| 0 <= k < 4096 ==> #[trigger] post.bytes_at(r)[k] == (seed + k) % 256,
        pre.count(p) > 1 ==> of_kind_or_heap(
            pre.supply,
            pre.storage(p).kind,
            4096,
            post.storage(r),
        ),
        pre.count(p) > 1 && can_be_had(pre.supply, pre.storage(p).kind, 4096)
            ==> post.storage(r).kind == pre.storage(p).kind,
        pre.count(p) > 1 && pre.storage(p).kind != 0 && has_kind(
            pre.supply.platform,
            pre.storage(p).kind,
        ) && is_first_fit(pre.supply.grants@, 4096, i) ==> post.supply.grants@
            == pre.supply.grants@.remove(i),
        pre.count(p) > 1 && (pre.storage(p).kind == 0 || !can_be_had(
            pre.supply,
            pre.storage(p).kind,
            4096,
        )) ==> post.supply.grants@ == pre.supply.grants@,
        pre.count(p) > 1 ==> pre.count(r) == 0,
        pre.count(p) == 1 ==> {
            &&& r == p
            &&& post.storage(r).kind == pre.storage(p).kind
            &&& post.storage(r).fd == pre.storage(p).fd
            &&& post.storage(r).id == pre.storage(p).id
            &&& post.supply == pre.supply
        },
        post.count(r) == 1,
        post.calls@ == pre.calls@ + (if pre.count(p) > 1 {
            duplicate_calls(pre.storage(p), pre.supply)
        } else {
            Seq::empty()
        }) + (open_calls(post.storage(r), Access::Write) + close_calls(
            post.storage(r),
            Access::Write,
        )),
        forall|q: u64|
            q != r && pre.live(q) && post.live(q) ==> #[trigger] post.storage(q) == pre.storage(q),
{
    assert(pre.slots@[p - 1].count > 0);
    assert(pre.storage(p).bytes.len() == FRAME_LEN);
    law_copy_keeps_kind_and_bytes(pre.storage(p), pre.supply);
    lemma_fit(pre.supply, 4096);
    assert(post.calls@ =~= pre.calls@ + (if pre.count(p) > 1 {
        duplicate_calls(pre.storage(p), pre.supply)
    } else {
        Seq::empty()
    }) + (open_calls(post.storage(r), Access::Write) + close_calls(
        post.storage(r),
        Access::Write,
    )));
}

/// A frame that is made has bytes that count up from its seed, and storage of
/// the kind that was asked for wherever that can be had, else of the heap.
/// The seed of a streamed frame is the low byte of its index.
pub proof fn law_made_frame(supply: Supply, seed: u8, kind: u32, index: u32)
    ensures
        made_storage(supply, seed, kind).bytes.len() == 4096,
        forall|k: int|
            0 <= k < 4096 ==> #[trigger] made_storage(supply, seed, kind).bytes[k] == (seed + k)
                % 256,
        of_kind_or_heap(supply, kind, 4096, made_storage(supply, seed, kind)),
        frame_seed(index) == index % 256,
        pattern(seed).len() == 4096,
        forall|k: int| 0 <= k < 4096 ==> #[trigger] pattern(seed)[k] == (seed + k) % 256,
{
    lemma_fit(supply, 4096);
}

/// Moving the payload changes where it lives and nothing else: its bytes are
/// those it had, in storage of the kind that was asked for, and it is the
/// producer's alone. Where that kind cannot be had, nothing happens.
pub proof fn law_moved_payload_keeps_its_bytes(
    pre: Heap,
    post: Heap,
    s0: State,
    s1: State,
    kind: u32,
)
    requires
        stored(pre, post, s0, s1, kind),
    ensures
        can_be_had(pre.supply, kind, 4096) ==> {
            &&& post.storage(s1.payload).kind == kind
            &&& of_kind_or_heap(pre.supply, kind, 4096, post.storage(s1.payload))
            &&& post.bytes_at(s1.payload) == pre.bytes_at(s0.payload)
            &&& post.count(s1.payload) == 1
            &&& pre.count(s1.payload) == 0
            &&& post.calls@ == pre.calls@ + (open_calls(post.storage(s1.payload), Access::Write)
                + open_calls(pre.storage(s0.payload), Access::Read) + close_calls(
                pre.storage(s0.payload),
                Access::Read,
            ) + close_calls(post.storage(s1.payload), Access::Write)) + freed(pre, s0.payload)
            &&& kind == 0 ==> post.supply.grants@ == pre.supply.grants@
            &&& forall|i: int| #[trigger]
                is_first_fit(pre.supply.grants@, 4096, i) && kind != 0 ==> post.supply.grants@
                    == pre.supply.grants@.remove(i)
            &&& s1.shared == s0.shared
            &&& s1.subs == s0.subs
            &&& s1.frame_kind == s0.frame_kind
            &&& s1.captures == s0.captures
            &&& s1.jobs == s0.jobs
            &&& s1.stream == s0.stream
        },
        !can_be_had(pre.supply, kind, 4096) ==> s1 == s0 && post.slots == pre.slots
            && post.calls@ == pre.calls@ && post.supply.grants@ == pre.supply.grants@,
        forall|q: u64|
            pre.live(q) && post.live(q) ==> #[trigger] post.storage(q) == pre.storage(q),
{
    lemma_fit(pre.supply, 4096);
    if can_be_had(pre.supply, kind, 4096) {
        assert(post.calls@ =~= pre.calls@ + (open_calls(post.storage(s1.payload), Access::Write)
            + open_calls(pre.storage(s0.payload), Access::Read) + close_calls(
            pre.storage(s0.payload),
            Access::Read,
        ) + close_calls(post.storage(s1.payload), Access::Write)) + freed(pre, s0.payload));
    }
}

/// Selecting the kind of emitted frames selects exactly that kind, and
/// changes nothing else; where it cannot be had, nothing is selected.
pub proof fn law_frame_kind_is_selected(
    pre: Heap,
    post: Heap,
    s0: State,
    s1: State,
    kind: u32,
)
    requires
        frame_stored(pre, post, s0, s1, kind),
    ensures
        s1.frame_kind == if can_be_had(pre.supply, kind, 1) {
            kind
        } else {
            s0.frame_kind
        },
        s1.payload == s0.payload,
        s1.shared == s0.shared,
        s1.subs == s0.subs,
        s1.captures == s0.captures,
        s1.jobs == s0.jobs,
        s1.stream == s0.stream,
        post.slots == pre.slots,
        kind == 0 || !can_be_had(pre.supply, kind, 1) ==> post.calls@ == pre.calls@
            && post.supply.grants@ == pre.supply.grants@,
        can_be_had(pre.supply, kind, 1) ==> forall|i: int| #[trigger]
            is_first_fit(pre.supply.grants@, 1, i) ==> {
                let g = pre.supply.grants@[i];
                &&& kind == 1 ==> post.calls@ == pre.calls@.push(PlatformCall::DmaFree { fd: g.fd })
                &&& kind == 2 ==> post.calls@ == pre.calls@.push(
                    PlatformCall::SurfaceFree { id: g.id },
                )
                &&& kind != 0 ==> post.supply.grants@ == pre.supply.grants@.remove(i)
            },
{
    lemma_fit(pre.supply, 1);
    if can_be_had(pre.supply, kind, 1) {
        assert forall|i: int| #[trigger] is_first_fit(pre.supply.grants@, 1, i) implies {
            let g = pre.supply.grants@[i];
            &&& kind == 1 ==> post.calls@ == pre.calls@.push(PlatformCall::DmaFree { fd: g.fd })
            &&& kind == 2 ==> post.calls@ == pre.calls@.push(
                PlatformCall::SurfaceFree { id: g.id },
            )
            &&& kind != 0 ==> post.supply.grants@ == pre.supply.grants@.remove(i)
        } by {
            let g = pre.supply.grants@[i];
            if kind == 1 {
                assert(post.calls@ =~= pre.calls@.push(PlatformCall::DmaFree { fd: g.fd }));
            } else if kind == 2 {
                assert(post.calls@ =~= pre.calls@.push(PlatformCall::SurfaceFree { id: g.id }));
            }
        }
    }
    assert(kind == 0 ==> post.calls@ =~= pre.calls@);
}

/// A descriptor tells an importer exactly where the frame's bytes are: from
/// the start of its buffer, as many as there are. Only DMA-BUF storage
/// reports a descriptor, the duplicate that was made for it, and only a
/// surface its identifier; the kind is the storage's.
pub proof fn law_descriptor_delimits_the_bytes(s: StorageView, dup: i32)
    requires
        s.bytes.len() <= usize::MAX,
    ensures
        ({
            let d = exported(s, dup);
            &&& d.offset == 0
            &&& d.len == s.bytes.len()
            &&& d.offset + d.len == s.bytes.len()
            &&& d.kind == s.kind
            &&& d._pad == 0
            &&& d.fd == if s.kind == 1 {
                dup as int
            } else {
                -1
            }
            &&& d.id == if s.kind == 2 {
                s.id as int
            } else {
                0
            }
        }),
        ({
            let d = exported2(s, dup);
            &&& d.offset == 0
            &&& d.offset + d.len == s.bytes.len()
            &&& d.kind == s.kind
            &&& d._pad == 0
            &&& d._pad2 == 0
            &&& d.fd == if s.kind == 1 {
                dup as int
            } else {
                -1
            }
            &&& d.id == if s.kind == 2 {
                s.id as int
            } else {
                0
            }
            &&& d.fourcc == 0x3432_4152
            &&& d.modifier == 0
            &&& d.width == 30
            &&& d.height == 32
            &&& d.stride == 128
            &&& d.plane_count == 1
        }),
        ({
            let d = plain_desc(s, dup);
            &&& d.kind == s.kind
            &&& d.len == s.bytes.len()
            &&& d.fd == if s.kind == 1 {
                dup as int
            } else {
                -1
            }
            &&& d.id == if s.kind == 2 {
                s.id as int
            } else {
                0
            }
        }),
{
}

/// Every frame has 32 rows of 30 pixels of four channels, 128 bytes apart.
pub proof fn law_geometry_of_every_frame()
    ensures
        frame_geometry().rows == 32,
        frame_geometry().cols == 30,
        frame_geometry().channels == 4,
        frame_geometry().row_stride == 128,
{
}

/// A new producer has the identity that it was given, a counter of zero, a
/// scale of 1.5, no descriptor, nothing subscribed, captured or streamed, and
/// a payload of 4096 zero bytes in heap storage that is its alone.
pub proof fn law_new_producer(w: ASharedV1, id: u64, pre: Heap, post: Heap, buf: u64)
    requires
        new_window(w, id),
        fresh_payload(pre, post, buf),
    ensures
        w.abi_version == 1,
        w.struct_size == 64,
        w.id == id,
        w.counter == 0,
        w.scale_bits == 0x3FF8_0000_0000_0000,
        w.fd == -1,
        w._pad == 0,
        forall|i: int| 0 <= i < 24 ==> #[trigger] w._reserved@[i] == 0,
        ({
            let s = new_state(w, buf);
            &&& s.shared == w
            &&& s.payload == buf
            &&& s.frame_kind == 0
            &&& s.next_sub == 0
            &&& s.next_job == 0
            &&& s.subs.len() == 0
            &&& s.pending.len() == 0
            &&& s.captures.len() == 0
            &&& s.jobs.len() == 0
            &&& s.stream is None
        }),
        pre.count(buf) == 0,
        post.count(buf) == 1,
        post.storage(buf).kind == 0,
        post.storage(buf).fd == -1,
        post.storage(buf).id == 0,
        post.bytes_at(buf).len() == 4096,
        forall|k: int| 0 <= k < 4096 ==> #[trigger] post.bytes_at(buf)[k] == 0,
        post.supply == pre.supply,
        post.calls@ == pre.calls@,
        forall|q: u64|
            pre.live(q) && post.live(q) ==> #[trigger] post.storage(q) == pre.storage(q),
{
    assert(post.calls@ =~= pre.calls@);
}

/// The flags of the four ends of a bracket.
proof fn lemma_flags()
    ensures
        SYNC_START | SYNC_READ == 1,
        SYNC_START | SYNC_RW == 3,
        SYNC_END | SYNC_READ == 5,
        SYNC_END | SYNC_RW == 7,
{
    assert(0u64 | 1u64 == 1 && 0u64 | 3u64 == 3 && 4u64 | 1u64 == 5 && 4u64 | 3u64 == 7)
        by (bit_vector);
}

/// An access is announced and ended on the very buffer that is accessed: a
/// DMA-BUF is synchronised for reading or for both, a surface is locked and
/// unlocked with the same options, read-only for a read; heap storage needs
/// neither. Storage is given back once, under its own handle.
pub proof fn law_access_is_bracketed(s: StorageView, inner: Seq<PlatformCall>)
    ensures
        s.kind == 1 ==> {
            &&& bracket(s, Access::Read, inner) == seq![
                PlatformCall::DmaSync { fd: s.fd, flags: 1 },
            ] + inner + seq![PlatformCall::DmaSync { fd: s.fd, flags: 5 }]
            &&& bracket(s, Access::Write, inner) == seq![
                PlatformCall::DmaSync { fd: s.fd, flags: 3 },
            ] + inner + seq![PlatformCall::DmaSync { fd: s.fd, flags: 7 }]
            &&& free_calls(s) == seq![PlatformCall::DmaFree { fd: s.fd }]
        },
        s.kind == 2 ==> {
            &&& bracket(s, Access::Read, inner) == seq![
                PlatformCall::SurfaceLock { id: s.id, options: 1 },
            ] + inner + seq![PlatformCall::SurfaceUnlock { id: s.id, options: 1 }]
            &&& bracket(s, Access::Write, inner) == seq![
                PlatformCall::SurfaceLock { id: s.id, options: 0 },
            ] + inner + seq![PlatformCall::SurfaceUnlock { id: s.id, options: 0 }]
            &&& free_calls(s) == seq![PlatformCall::SurfaceFree { id: s.id }]
        },
        s.kind == 0 ==> {
            &&& bracket(s, Access::Read, inner) == inner
            &&& bracket(s, Access::Write, inner) == inner
            &&& free_calls(s) == Seq::<PlatformCall>::empty()
        },
        forall|a: Access| #[trigger]
            bracket(s, a, inner) == open_calls(s, a) + inner + close_calls(s, a),
{
    lemma_flags();
    if s.kind == 0 {
        assert(bracket(s, Access::Read, inner) =~= inner);
        assert(bracket(s, Access::Write, inner) =~= inner);
    }
}

/// A copy reads its source inside a bracket on the source, and inside that
/// writes itself inside a bracket on its own buffer; making a frame writes it
/// inside one bracket.
pub proof fn law_copies_and_frames_are_bracketed(
    s: StorageView,
    supply: Supply,
    seed: u8,
    kind: u32,
)
    ensures
        duplicate_calls(s, supply) == open_calls(s, Access::Read) + open_calls(
            duplicated(s, supply),
            Access::Write,
        ) + close_calls(duplicated(s, supply), Access::Write) + close_calls(s, Access::Read),
        making_calls(supply, seed, kind) == open_calls(
            made_storage(supply, seed, kind),
            Access::Write,
        ) + close_calls(made_storage(supply, seed, kind), Access::Write),
{
    assert(duplicate_calls(s, supply) =~= open_calls(s, Access::Read) + open_calls(
        duplicated(s, supply),
        Access::Write,
    ) + close_calls(duplicated(s, supply), Access::Write) + close_calls(s, Access::Read));
    assert(making_calls(supply, seed, kind) =~= open_calls(
        made_storage(supply, seed, kind),
        Access::Write,
    ) + close_calls(made_storage(supply, seed, kind), Access::Write));
}

/// A buffer is given back exactly with its last reference, and under its own
/// handle; making a buffer writable that nobody else holds asks nothing.
pub proof fn law_last_reference_gives_back(h: Heap, p: u64)
    ensures
        h.count(p) != 1 ==> freed(h, p).len() == 0,
        h.count(p) == 1 && h.storage(p).kind == 1 ==> freed(h, p) == seq![
            PlatformCall::DmaFree { fd: h.storage(p).fd },
        ],
        h.count(p) == 1 && h.storage(p).kind == 2 ==> freed(h, p) == seq![
            PlatformCall::SurfaceFree { id: h.storage(p).id },
        ],
        h.count(p) == 1 && h.storage(p).kind == 0 ==> freed(h, p).len() == 0,
        h.count(p) == 1 ==> detach_calls(h, p).len() == 0,
        h.count(p) > 1 ==> detach_calls(h, p) == duplicate_calls(h.storage(p), h.supply),
{
}

/// Making a buffer writable changes no byte: a buffer that nobody else holds
/// is the one that is written, and one that is held elsewhere is copied, to
/// storage of its kind wherever that can be had.
pub proof fn law_detaching_keeps_the_bytes(h: Heap, p: u64, post: Supply, i: int)
    requires
        h.wf(),
        h.live(p),
        detach_supply(h, p, post),
    ensures
        detached(h, p).bytes == h.bytes_at(p),
        h.count(p) == 1 ==> detached(h, p) == h.storage(p) && post == h.supply,
        h.count(p) > 1 ==> of_kind_or_heap(h.supply, h.storage(p).kind, 4096, detached(h, p)),
        h.count(p) > 1 && h.storage(p).kind != 0 && has_kind(h.supply.platform, h.storage(p).kind)
            && is_first_fit(h.supply.grants@, 4096, i) ==> post.grants@
            == h.supply.grants@.remove(i),
{
    assert(h.slots@[p - 1].count > 0);
    assert(h.storage(p).bytes.len() == FRAME_LEN);
    law_copy_keeps_kind_and_bytes(h.storage(p), h.supply);
    lemma_fit(h.supply, 4096);
}

/// A step asks the platform for exactly the calls that it names, after those
/// that were asked before; it changes no buffer that stays alive, and takes
/// from the supply only where it allocates.
pub proof fn law_step_does_no_more_than_it_says(
    pre: Heap,
    post: Heap,
    kind: u32,
    calls: Seq<PlatformCall>,
)
    ensures
        effect(pre, post, calls) ==> {
            &&& post.supply == pre.supply
            &&& post.calls@ == pre.calls@ + calls
            &&& forall|q: u64|
                pre.live(q) && post.live(q) ==> #[trigger] post.storage(q) == pre.storage(q)
        },
        alloc_effect(pre, post, kind, calls) ==> {
            &&& post.supply.platform == pre.supply.platform
            &&& post.calls@ == pre.calls@ + calls
            &&& kind == 0 || !can_be_had(pre.supply, kind, 4096) ==> post.supply.grants@
                == pre.supply.grants@
            &&& forall|i: int|
                kind != 0 && has_kind(pre.supply.platform, kind) && #[trigger] is_first_fit(
                    pre.supply.grants@,
                    4096,
                    i,
                ) ==> post.supply.grants@ == pre.supply.grants@.remove(i)
            &&& forall|q: u64|
                pre.live(q) && post.live(q) ==> #[trigger] post.storage(q) == pre.storage(q)
        },
{
    lemma_fit(pre.supply, 4096);
}

/// Taking one more reference to a buffer, or giving one up, changes its count
/// by one and no other count.
pub proof fn law_references_are_counted(pre: Heap, post: Heap, p: u64)
    ensures
        transfer(pre, post, |q: u64| 0nat, one(p)) ==> post.count(p) == pre.count(p) + 1
            && forall|q: u64| q != p ==> #[trigger] post.count(q) == pre.count(q),
        transfer(pre, post, one(p), |q: u64| 0nat) ==> post.count(p) + 1 == pre.count(p)
            && forall|q: u64| q != p ==> #[trigger] post.count(q) == pre.count(q),
{
    let none = |q: u64| 0nat;
    if transfer(pre, post, none, one(p)) {
        assert(post.count(p) + none(p) == pre.count(p) + one(p)(p));
        assert forall|q: u64| q != p implies #[trigger] post.count(q) == pre.count(q) by {
            assert(post.count(q) + none(q) == pre.count(q) + one(p)(q));
        }
    }
    if transfer(pre, post, one(p), none) {
        assert(post.count(p) + one(p)(p) == pre.count(p) + none(p));
        assert forall|q: u64| q != p implies #[trigger] post.count(q) == pre.count(q) by {
            assert(post.count(q) + one(p)(q) == pre.count(q) + none(q));
        }
    }
}

/// A step that leaves the platform alone takes nothing from its supply and
/// asks nothing of it.
pub proof fn law_platform_is_left_alone(pre: Heap, post: Heap)
    requires
        pre.same_platform(post),
    ensures
        post.supply == pre.supply,
        post.calls@ == pre.calls@,
{
}

/// A list of buffers holds each as often as its parts do.
pub proof fn law_occurrences_add_up(a: Seq<u64>, b: Seq<u64>, x: u64, p: u64)
    ensures
        occurrences(Seq::empty(), p) == 0,
        occurrences(seq![x], p) == if x == p {
            1nat
        } else {
            0
        },
        occurrences(a + b, p) == occurrences(a, p) + occurrences(b, p),
    decreases b.len(),
{
    reveal_with_fuel(occurrences, 2);
    assert(seq![x].drop_last() =~= Seq::<u64>::empty());
    if b.len() > 0 {
        law_occurrences_add_up(a, b.drop_last(), x, p);
        assert((a + b).drop_last() =~= a + b.drop_last());
        assert((a + b).last() == b.last());
    } else {
        assert(a + b =~= a);
    }
}

/// A checksum adds every byte once: that of one byte is the byte, and that of
/// two runs of bytes is the sum of theirs.
pub proof fn law_checksum_adds_up(a: Seq<u8>, b: Seq<u8>, x: u8)
    ensures
        sum_bytes(Seq::empty()) == 0,
        sum_bytes(seq![x]) == x,
        sum_bytes(a + b) == sum_bytes(a) + sum_bytes(b),
    decreases b.len(),
{
    assert(seq![x].drop_last() =~= Seq::<u8>::empty());
    reveal_with_fuel(sum_bytes, 2);
    if b.len() > 0 {
        law_checksum_adds_up(a, b.drop_last(), x);
        assert((a + b).drop_last() =~= a + b.drop_last());
        assert((a + b).last() == b.last());
    } else {
        assert(a + b =~= a);
    }
}

/// Making the frame of a capture asks the platform for one bracket around
/// writing it, takes the grant that it is made on, and touches no other
/// buffer.
pub proof fn law_making_a_capture(pre: Heap, post: Heap, buf: u64, kind: u32)
    requires
        captured(pre, post, buf, kind),
    ensures
        pre.count(buf) == 0,
        post.count(buf) == 1,
        post.calls@ == pre.calls@ + (open_calls(post.storage(buf), Access::Write) + close_calls(
            post.storage(buf),
            Access::Write,
        )),
        post.supply.platform == pre.supply.platform,
        kind == 0 || !can_be_had(pre.supply, kind, 4096) ==> post.supply.grants@
            == pre.supply.grants@,
        forall|i: int|
            kind != 0 && has_kind(pre.supply.platform, kind) && #[trigger] is_first_fit(
                pre.supply.grants@,
                4096,
                i,
            ) ==> post.supply.grants@ == pre.supply.grants@.remove(i),
        forall|q: u64|
            pre.live(q) && post.live(q) ==> #[trigger] post.storage(q) == pre.storage(q),
{
    lemma_fit(pre.supply, 4096);
    assert(post.calls@ =~= pre.calls@ + (open_calls(post.storage(buf), Access::Write)
        + close_calls(post.storage(buf), Access::Write)));
}

/// What a step of the producer thread asks of the platform: making a frame,
/// one bracket around writing it; a delivery, giving back what it replaces;
/// the end of a frame, giving it back if nobody else holds it; anything else,
/// nothing. Only making a frame takes a grant.
pub proof fn law_producer_asks(pre: Heap, post: Heap, s: State, out: ProducerStep)
    requires
        producer_effect(pre, post, s, out),
        s.stream is Some,
    ensures
        match out {
            ProducerStep::Produced { index } => {
                let made = made_storage(
                    pre.supply,
                    (index % 256) as u8,
                    s.stream->Some_0.kind,
                );
                post.calls@ == pre.calls@ + (open_calls(made, Access::Write) + close_calls(
                    made,
                    Access::Write,
                ))
            },
            ProducerStep::Delivered { id, .. } => post.calls@ == pre.calls@ + match entry_of(
                s,
                id,
            ) {
                Some(e) => replaced_calls(pre, e, s.emitting()->Some_0.buf),
                None => Seq::empty(),
            },
            ProducerStep::Retired { .. } => post.calls@ == pre.calls@ + freed(
                pre,
                s.emitting()->Some_0.buf,
            ),
            _ => post.calls@ == pre.calls@,
        },
        out !is Produced ==> post.supply == pre.supply,
        out is Produced ==> {
            let kind = s.stream->Some_0.kind;
            &&& post.supply.platform == pre.supply.platform
            &&& kind == 0 || !can_be_had(pre.supply, kind, 4096) ==> post.supply.grants@
                == pre.supply.grants@
            &&& forall|i: int|
                kind != 0 && has_kind(pre.supply.platform, kind) && #[trigger] is_first_fit(
                    pre.supply.grants@,
                    4096,
                    i,
                ) ==> post.supply.grants@ == pre.supply.grants@.remove(i)
        },
        forall|q: u64|
            pre.live(q) && post.live(q) ==> #[trigger] post.storage(q) == pre.storage(q),
{
    lemma_fit(pre.supply, 4096);
    if let ProducerStep::Produced { index } = out {
        let made = made_storage(pre.supply, (index % 256) as u8, s.stream->Some_0.kind);
        assert(post.calls@ =~= pre.calls@ + (open_calls(made, Access::Write) + close_calls(
            made,
            Access::Write,
        )));
    } else {
        assert(pre.calls@ + Seq::<PlatformCall>::empty() =~= pre.calls@);
    }
}

/// A teardown of the whole producer asks for nothing while the stream runs;
/// then it gives back the frames that are left in the mailboxes of the
/// subscriptions that it gets to, in order, each with its last reference.
pub proof fn law_destroying_asks(h: Heap, s: State)
    ensures
        (s.stream matches Some(p) && !p.finished()) ==> s.destroy_calls(h).len() == 0,
        (s.stream matches Some(p) ==> p.finished()) ==> s.destroy_calls(h) == freed_all(
            h,
            closing_bufs(s.subs),
        ),
        s.subs.len() == 0 ==> closing_bufs(s.subs).len() == 0,
        s.subs.len() > 0 ==> {
            let e = s.subs[0];
            closing_bufs(s.subs) == if e.running || (e.pump matches Some(p) && p.alive) {
                Seq::<u64>::empty()
            } else {
                (match e.pump {
                    Some(p) => match p.slot {
                        Some(f) => seq![f.buf],
                        None => Seq::<u64>::empty(),
                    },
                    None => Seq::empty(),
                }) + closing_bufs(s.subs.drop_first())
            }
        },
{
}

/// Summing a captured frame asks for what making it asks for, and then gives
/// it back; it takes from the supply what making it takes.
pub proof fn law_summed_frame_is_given_back(pre: Heap, post: Heap, kind: u32)
    requires
        summed(pre, post, kind),
    ensures
        ({
            let made = made_storage(pre.supply, 0xCA, kind);
            post.calls@ == pre.calls@ + (open_calls(made, Access::Write) + close_calls(
                made,
                Access::Write,
            ) + free_calls(made))
        }),
        post.supply.platform == pre.supply.platform,
        kind == 0 || !can_be_had(pre.supply, kind, 4096) ==> post.supply.grants@
            == pre.supply.grants@,
        forall|i: int|
            kind != 0 && has_kind(pre.supply.platform, kind) && #[trigger] is_first_fit(
                pre.supply.grants@,
                4096,
                i,
            ) ==> post.supply.grants@ == pre.supply.grants@.remove(i),
        forall|q: u64|
            pre.live(q) && post.live(q) ==> #[trigger] post.storage(q) == pre.storage(q),
{
    lemma_fit(pre.supply, 4096);
    let made = made_storage(pre.supply, 0xCA, kind);
    assert(post.calls@ =~= pre.calls@ + (open_calls(made, Access::Write) + close_calls(
        made,
        Access::Write,
    ) + free_calls(made)));
}

/// The fast path reads what the slow one computes: its second factor is the
/// identity plus the counter, its first the scale of the window, in every
/// window that is not older than the reader, and there is none in an older
/// one. So right after `process`, which counts up twice, the second factor is
/// what `process` returned.
pub proof fn law_fast_path_agrees(before: ASharedV1, after: ASharedV1)
    requires
        after.id == before.id,
        after.scale_bits == before.scale_bits,
        after.abi_version == before.abi_version,
        after.counter == before.counter + 2,
        after.id + after.counter <= u64::MAX,
    ensures
        after.abi_version >= 1 ==> (fast_factors(after) matches Some((scale, sum)) && sum
            == after.id + after.counter && sum == before.id + before.counter + 2 && scale
            == after.scale_bits),
        before.abi_version >= 1 ==> (fast_factors(before) matches Some((scale, sum)) && sum
            == before.id + before.counter && scale == before.scale_bits),
        after.abi_version < 1 ==> fast_factors(after) is None && fast_factors(before) is None,
{
}

} // verus!
