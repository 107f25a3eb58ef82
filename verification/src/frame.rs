//! Frames: references to buffers of the heap.

use vstd::prelude::*;
use crate::abi::{
    ABuf, AFrameDescV1, AFrameDescV2, AFrameInfoV1, A_FOURCC_RGBA8888, A_MODIFIER_LINEAR,
};
use crate::heap::{
    frame_geometry, freed, keeps, nothing, one, transfer, Heap, FRAME_LEN,
};
use crate::storage::{exported, StorageView};

verus! {

/// A buffer's handle on the other side of the boundary.
pub type RawBuf = ABuf;

/// One reference to a buffer. A frame is immutable while it is shared. It
/// cannot be duplicated silently: `retain` makes a second one and `release`
/// gives one up.
#[derive(Debug)]
pub struct Frame {
    pub buf: u64,
}

/// The descriptor with pixel format of a storage: that of `exported`, the
/// format of all frames, and their geometry.
pub open spec fn exported2(s: StorageView, dup: i32) -> AFrameDescV2 {
    let v1 = exported(s, dup);
    AFrameDescV2 {
        kind: v1.kind,
        _pad: 0,
        fd: v1.fd,
        id: v1.id,
        offset: v1.offset,
        len: v1.len,
        fourcc: A_FOURCC_RGBA8888,
        _pad2: 0,
        modifier: A_MODIFIER_LINEAR,
        width: frame_geometry().cols as u32,
        height: frame_geometry().rows as u32,
        stride: frame_geometry().row_stride as u32,
        plane_count: 1,
    }
}

/// The newer descriptor repeats every field of the older one.
pub proof fn law_descriptor_superset(s: StorageView, dup: i32)
    ensures
        exported2(s, dup).kind == exported(s, dup).kind,
        exported2(s, dup)._pad == exported(s, dup)._pad,
        exported2(s, dup).fd == exported(s, dup).fd,
        exported2(s, dup).id == exported(s, dup).id,
        exported2(s, dup).offset == exported(s, dup).offset,
        exported2(s, dup).len == exported(s, dup).len,
{
}

impl Frame {
    /// Whether this reference can be used: its buffer is alive.
    pub open spec fn valid(self, heap: Heap) -> bool {
        heap.live(self.buf)
    }

    /// The bytes.
    pub fn data<'a>(&self, heap: &'a Heap) -> (r: &'a [u8])
        requires
            heap.wf(),
            self.valid(*heap),
        ensures
            r@ == heap.bytes_at(self.buf),
            r@.len() == FRAME_LEN,
    {
        heap.bytes(self.buf)
    }

    /// The geometry.
    pub fn info(&self, heap: &Heap) -> (r: AFrameInfoV1)
        requires
            heap.wf(),
            self.valid(*heap),
        ensures
            r == frame_geometry(),
    {
        heap.get(self.buf).info
    }

    /// The storage descriptor for other processes. `dup` is a duplicate of
    /// the buffer's file descriptor, which the receiver will own.
    pub fn export(&self, heap: &Heap, dup: i32) -> (r: AFrameDescV1)
        requires
            heap.wf(),
            self.valid(*heap),
        ensures
            r == exported(heap.storage(self.buf), dup),
            r.offset == 0,
            r.offset + r.len == heap.bytes_at(self.buf).len(),
    {
        heap.get(self.buf).storage.export(dup)
    }

    /// The storage descriptor with the pixel format: format and geometry
    /// belong to the payload, not to how its pages were allocated.
    pub fn export2(&self, heap: &Heap, dup: i32) -> (r: AFrameDescV2)
        requires
            heap.wf(),
            self.valid(*heap),
        ensures
            r == exported2(heap.storage(self.buf), dup),
            r.offset == 0,
            r.offset + r.len == heap.bytes_at(self.buf).len(),
    {
        let v1 = self.export(heap, dup);
        let info = self.info(heap);
        AFrameDescV2 {
            kind: v1.kind,
            _pad: 0,
            fd: v1.fd,
            id: v1.id,
            offset: v1.offset,
            len: v1.len,
            fourcc: A_FOURCC_RGBA8888,
            _pad2: 0,
            modifier: A_MODIFIER_LINEAR,
            width: info.cols as u32,
            height: info.rows as u32,
            stride: info.row_stride as u32,
            plane_count: 1,
        }
    }

    /// Exclusive write access: granted exactly while this is the only
    /// reference.
    pub fn data_mut<'a>(&mut self, heap: &'a mut Heap) -> (r: Option<&'a mut [u8]>)
        requires
            old(heap).wf(),
            old(self).valid(*old(heap)),
        ensures
            *final(self) == *old(self),
            r is Some <==> old(heap).count(old(self).buf) == 1,
            r matches Some(b) ==> {
                &&& b@ == old(heap).bytes_at(old(self).buf)
                &&& b@.len() == FRAME_LEN
                &&& final(heap).storage(old(self).buf) == (StorageView {
                    bytes: final(b)@,
                    ..old(heap).storage(old(self).buf)
                })
                &&& final(b)@.len() == FRAME_LEN ==> final(heap).wf()
            },
            r is None ==> *final(heap) == *old(heap),
            forall|q: u64| #[trigger] final(heap).count(q) == old(heap).count(q),
            forall|q: u64|
                q != old(self).buf && old(heap).live(q) ==> #[trigger] final(heap).storage(q)
                    == old(heap).storage(q),
            old(heap).same_platform(*final(heap)),
            transfer(*old(heap), *final(heap), one(old(self).buf), one(old(self).buf)),
    {
        heap.bytes_mut(self.buf)
    }

    /// A second reference to the same buffer.
    pub fn retain(&self, heap: &mut Heap) -> (r: Frame)
        requires
            old(heap).wf(),
            self.valid(*old(heap)),
            old(heap).room(self.buf),
        ensures
            final(heap).wf(),
            r.buf == self.buf,
            final(heap).count(self.buf) == old(heap).count(self.buf) + 1,
            forall|q: u64| q != self.buf ==> #[trigger] final(heap).count(q) == old(heap).count(q),
            forall|q: u64|
                old(heap).live(q) ==> #[trigger] final(heap).storage(q) == old(heap).storage(q),
            old(heap).same_platform(*final(heap)),
            keeps(*old(heap), *final(heap)),
            transfer(*old(heap), *final(heap), nothing(), one(r.buf)),
    {
        heap.retain(self.buf);
        Frame { buf: self.buf }
    }

    /// Gives the reference up; with the last one the buffer is freed.
    pub fn release(self, heap: &mut Heap)
        requires
            old(heap).wf(),
            self.valid(*old(heap)),
        ensures
            final(heap).wf(),
            final(heap).count(self.buf) + 1 == old(heap).count(self.buf),
            forall|q: u64| q != self.buf ==> #[trigger] final(heap).count(q) == old(heap).count(q),
            forall|q: u64|
                final(heap).live(q) ==> #[trigger] final(heap).storage(q) == old(heap).storage(q),
            final(heap).supply == old(heap).supply,
            final(heap).calls@ == old(heap).calls@ + freed(*old(heap), self.buf),
            keeps(*old(heap), *final(heap)),
            transfer(*old(heap), *final(heap), one(self.buf), nothing()),
    {
        heap.release(self.buf)
    }

    /// Turns the reference into a raw handle; the count does not change.
    pub fn into_raw(self) -> (r: RawBuf)
        ensures
            r.addr == self.buf,
    {
        ABuf { addr: self.buf }
    }

    /// Takes over a reference that a raw handle carries; the count does not
    /// change.
    pub fn from_raw(p: RawBuf) -> (r: Frame)
        ensures
            r.buf == p.addr,
    {
        Frame { buf: p.addr }
    }

    /// Adds a reference through a raw handle.
    pub fn retain_raw(heap: &mut Heap, p: RawBuf)
        requires
            old(heap).wf(),
            old(heap).live(p.addr),
            old(heap).room(p.addr),
        ensures
            final(heap).wf(),
            final(heap).count(p.addr) == old(heap).count(p.addr) + 1,
            forall|q: u64|
                old(heap).live(q) ==> #[trigger] final(heap).storage(q) == old(heap).storage(q),
            old(heap).same_platform(*final(heap)),
            keeps(*old(heap), *final(heap)),
            transfer(*old(heap), *final(heap), nothing(), one(p.addr)),
    {
        heap.retain(p.addr)
    }

    /// Drops a reference through a raw handle.
    pub fn release_raw(heap: &mut Heap, p: RawBuf)
        requires
            old(heap).wf(),
            old(heap).live(p.addr),
        ensures
            final(heap).wf(),
            final(heap).count(p.addr) + 1 == old(heap).count(p.addr),
            forall|q: u64|
                final(heap).live(q) ==> #[trigger] final(heap).storage(q) == old(heap).storage(q),
            final(heap).supply == old(heap).supply,
            final(heap).calls@ == old(heap).calls@ + freed(*old(heap), p.addr),
            keeps(*old(heap), *final(heap)),
            transfer(*old(heap), *final(heap), one(p.addr), nothing()),
    {
        heap.release(p.addr)
    }

    /// Where the bytes start and how many there are, while the reference
    /// behind the raw handle is the only one.
    pub fn map_mut_raw(heap: &Heap, p: RawBuf) -> (r: Option<(u64, usize)>)
        requires
            heap.wf(),
            heap.live(p.addr),
        ensures
            r == (if heap.count(p.addr) == 1 {
                Some((p.addr, FRAME_LEN))
            } else {
                None
            }),
    {
        if heap.ref_count(p.addr) == 1 {
            Some((p.addr, heap.bytes(p.addr).len()))
        } else {
            None
        }
    }
}

/// Adding a reference and dropping one again leaves every count and every
/// buffer as it was; so does the trip through a raw handle, which counts
/// nothing.
pub proof fn law_retain_release(h0: Heap, h1: Heap, h2: Heap, p: u64)
    requires
        h0.live(p),
        transfer(h0, h1, nothing(), one(p)),
        transfer(h1, h2, one(p), nothing()),
    ensures
        forall|q: u64| #[trigger] h2.count(q) == h0.count(q),
        forall|q: u64| h0.live(q) ==> #[trigger] h2.storage(q) == h0.storage(q),
{
    assert forall|q: u64| #[trigger] h2.count(q) == h0.count(q) by {
        assert(h1.count(q) + nothing()(q) == h0.count(q) + one(p)(q));
        assert(h2.count(q) + one(p)(q) == h1.count(q) + nothing()(q));
    }
    assert forall|q: u64| h0.live(q) implies #[trigger] h2.storage(q) == h0.storage(q) by {
        assert(h1.count(q) + nothing()(q) == h0.count(q) + one(p)(q));
        assert(h1.storage(q) == h0.storage(q));
    }
}

} // verus!
