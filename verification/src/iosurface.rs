//! macOS `IOSurface` storage.

use vstd::prelude::*;
use crate::storage::{Grant, PlatformCall, NO_FD};

verus! {

/// `kIOSurfaceLockReadOnly`: a read that must not mark the surface dirty.
pub const LOCK_READ_ONLY: u32 = 1;

/// A lock for reading and writing.
pub const LOCK_READ_WRITE: u32 = 0;

/// An `IOSurface` used as frame storage, named by its global identifier.
/// `bytes` are the contents of its mapping.
pub struct Surface {
    pub id: u32,
    pub bytes: Vec<u8>,
}

impl Surface {
    /// The contents of the mapping.
    pub fn bytes(&self) -> (r: &[u8])
        ensures
            r@ == self.bytes@,
    {
        self.bytes.as_slice()
    }

    /// The contents of the mapping, for writing.
    pub fn bytes_mut(&mut self) -> (r: &mut [u8])
        ensures
            r@ == old(self).bytes@,
            final(self).bytes@ == final(r)@,
            final(self).id == old(self).id,
    {
        self.bytes.as_mut_slice()
    }

    /// Takes the per-access lock: zero for read and write, `LOCK_READ_ONLY`
    /// for reads. Locks are counted, so this nests inside the lifetime lock.
    pub fn lock(&self, options: u32) -> (r: PlatformCall)
        ensures
            r == (PlatformCall::SurfaceLock { id: self.id, options }),
    {
        PlatformCall::SurfaceLock { id: self.id, options }
    }

    /// Releases a lock taken with the same options.
    pub fn unlock(&self, options: u32) -> (r: PlatformCall)
        ensures
            r == (PlatformCall::SurfaceUnlock { id: self.id, options }),
    {
        PlatformCall::SurfaceUnlock { id: self.id, options }
    }
}

/// A call that an allocation makes, once per record and in order.
#[derive(Debug, Clone, Copy, PartialEq, Eq, Structural)]
pub enum SurfaceCall {
    /// Release the dictionary of properties.
    ReleaseProps,
    /// Release the number that holds the size.
    ReleaseSize,
    /// Release the number that holds the element size.
    ReleaseElement,
    /// Release the surface.
    ReleaseSurface,
    /// Release the lifetime lock, with the options that it was taken with.
    Unlock { options: u32 },
    /// Write zeros over the mapping.
    Zero { len: usize },
}

/// What an allocation asks for next.
#[derive(Debug, Clone, Copy, PartialEq, Eq, Structural)]
pub enum SurfaceNext {
    /// Create the surface from the two properties of the request.
    Create,
    /// Tell how large the surface is.
    Measure,
    /// Take the lifetime lock, with these options.
    Lock { options: u32 },
    /// Tell where the mapping starts.
    Base,
    /// The surface is there.
    Granted(Grant),
    /// There is none to be had.
    GiveUp,
}

/// What the framework is asked for: the two numbers that the dictionary of
/// properties holds, and the options of the lifetime lock.
#[derive(Debug, Clone, Copy, PartialEq, Eq, Structural)]
pub struct SurfaceRequest {
    /// Under `kIOSurfaceAllocSize`.
    pub alloc_size: i64,
    /// Under `kIOSurfaceBytesPerElement`.
    pub bytes_per_element: i64,
    pub lock_options: u32,
}

/// The request for a surface of `len` bytes: elements of one byte, locked for
/// reading and writing. The framework's numbers are signed; every length of
/// up to the largest of them is asked for as it is.
pub fn surface_request(len: usize) -> (r: SurfaceRequest)
    ensures
        len <= i64::MAX ==> r.alloc_size == len,
        r.alloc_size == len as i64,
        r.bytes_per_element == 1,
        r.lock_options == LOCK_READ_WRITE,
        r.lock_options == 0,
{
    SurfaceRequest {
        alloc_size: len as i64,
        bytes_per_element: 1,
        lock_options: LOCK_READ_WRITE,
    }
}

/// What is released if the properties are incomplete: whatever was made.
pub open spec fn release_made(props: bool, size: bool, element: bool) -> Seq<SurfaceCall> {
    (if props {
        seq![SurfaceCall::ReleaseProps]
    } else {
        Seq::empty()
    }) + (if size {
        seq![SurfaceCall::ReleaseSize]
    } else {
        Seq::empty()
    }) + (if element {
        seq![SurfaceCall::ReleaseElement]
    } else {
        Seq::empty()
    })
}

/// What follows once the two numbers and the dictionary of properties were
/// made, or not.
pub open spec fn after_properties(size: bool, element: bool, props: bool) -> (
    Seq<SurfaceCall>,
    SurfaceNext,
) {
    if size && element && props {
        (Seq::empty(), SurfaceNext::Create)
    } else {
        (release_made(props, size, element), SurfaceNext::GiveUp)
    }
}

/// What follows once the surface was created, or not. The properties are
/// done with either way.
pub open spec fn after_create(surface: bool) -> (Seq<SurfaceCall>, SurfaceNext) {
    (
        release_made(true, true, true),
        if surface {
            SurfaceNext::Measure
        } else {
            SurfaceNext::GiveUp
        },
    )
}

/// What follows once the surface's size is known. One that is too small is
/// released and never locked.
pub open spec fn after_measure(len: usize, size: usize) -> (Seq<SurfaceCall>, SurfaceNext) {
    if size < len {
        (seq![SurfaceCall::ReleaseSurface], SurfaceNext::GiveUp)
    } else {
        (Seq::empty(), SurfaceNext::Lock { options: LOCK_READ_WRITE })
    }
}

/// What follows once the lifetime lock was taken, or not.
pub open spec fn after_lock(ok: bool) -> (Seq<SurfaceCall>, SurfaceNext) {
    if ok {
        (Seq::empty(), SurfaceNext::Base)
    } else {
        (seq![SurfaceCall::ReleaseSurface], SurfaceNext::GiveUp)
    }
}

/// What follows once it is known whether the mapping has an address. It is
/// zeroed and stays locked for as long as it lives.
pub open spec fn after_base(len: usize, id: u32, ok: bool) -> (Seq<SurfaceCall>, SurfaceNext) {
    if ok {
        (seq![SurfaceCall::Zero { len }], SurfaceNext::Granted(Grant { fd: NO_FD, id, len }))
    } else {
        (
            seq![
                SurfaceCall::Unlock { options: LOCK_READ_WRITE },
                SurfaceCall::ReleaseSurface,
            ],
            SurfaceNext::GiveUp,
        )
    }
}

/// The two numbers and the dictionary of properties were made, or not.
pub fn made_properties(size: bool, element: bool, props: bool) -> (r: (
    Vec<SurfaceCall>,
    SurfaceNext,
))
    ensures
        (r.0@, r.1) == after_properties(size, element, props),
{
    let mut calls: Vec<SurfaceCall> = Vec::new();
    if size && element && props {
        return (calls, SurfaceNext::Create);
    }
    if props {
        calls.push(SurfaceCall::ReleaseProps);
    }
    if size {
        calls.push(SurfaceCall::ReleaseSize);
    }
    if element {
        calls.push(SurfaceCall::ReleaseElement);
    }
    assert(calls@ =~= release_made(props, size, element));
    (calls, SurfaceNext::GiveUp)
}

/// The surface was created, or not.
pub fn created(surface: bool) -> (r: (Vec<SurfaceCall>, SurfaceNext))
    ensures
        (r.0@, r.1) == after_create(surface),
{
    let mut calls: Vec<SurfaceCall> = Vec::new();
    calls.push(SurfaceCall::ReleaseProps);
    calls.push(SurfaceCall::ReleaseSize);
    calls.push(SurfaceCall::ReleaseElement);
    assert(calls@ =~= release_made(true, true, true));
    if surface {
        (calls, SurfaceNext::Measure)
    } else {
        (calls, SurfaceNext::GiveUp)
    }
}

/// The surface has `size` bytes.
pub fn measured(len: usize, size: usize) -> (r: (Vec<SurfaceCall>, SurfaceNext))
    ensures
        (r.0@, r.1) == after_measure(len, size),
{
    let mut calls: Vec<SurfaceCall> = Vec::new();
    if size < len {
        calls.push(SurfaceCall::ReleaseSurface);
        assert(calls@ =~= seq![SurfaceCall::ReleaseSurface]);
        (calls, SurfaceNext::GiveUp)
    } else {
        (calls, SurfaceNext::Lock { options: LOCK_READ_WRITE })
    }
}

/// The lifetime lock was taken, or not.
pub fn locked(ok: bool) -> (r: (Vec<SurfaceCall>, SurfaceNext))
    ensures
        (r.0@, r.1) == after_lock(ok),
{
    let mut calls: Vec<SurfaceCall> = Vec::new();
    if ok {
        (calls, SurfaceNext::Base)
    } else {
        calls.push(SurfaceCall::ReleaseSurface);
        assert(calls@ =~= seq![SurfaceCall::ReleaseSurface]);
        (calls, SurfaceNext::GiveUp)
    }
}

/// The mapping of the surface `id` has an address, or not.
pub fn based(len: usize, id: u32, ok: bool) -> (r: (Vec<SurfaceCall>, SurfaceNext))
    ensures
        (r.0@, r.1) == after_base(len, id, ok),
{
    let mut calls: Vec<SurfaceCall> = Vec::new();
    if ok {
        calls.push(SurfaceCall::Zero { len });
        assert(calls@ =~= seq![SurfaceCall::Zero { len }]);
        (calls, SurfaceNext::Granted(Grant { fd: NO_FD, id, len }))
    } else {
        calls.push(SurfaceCall::Unlock { options: LOCK_READ_WRITE });
        calls.push(SurfaceCall::ReleaseSurface);
        assert(calls@ =~= seq![
            SurfaceCall::Unlock { options: LOCK_READ_WRITE },
            SurfaceCall::ReleaseSurface,
        ]);
        (calls, SurfaceNext::GiveUp)
    }
}

/// What the operating system answers over one allocation.
pub struct Answers {
    pub size: bool,
    pub element: bool,
    pub props: bool,
    pub surface: bool,
    pub alloc_size: usize,
    pub locks: bool,
    pub base: bool,
    pub id: u32,
}

/// Whether the allocation succeeds.
pub open spec fn succeeds(len: usize, a: Answers) -> bool {
    &&& a.size && a.element && a.props && a.surface
    &&& a.alloc_size >= len
    &&& a.locks && a.base
}

/// Every call of one allocation, in order, and how it ends: each step is
/// taken where the one before asks for it.
pub open spec fn whole_allocation(len: usize, a: Answers) -> (Seq<SurfaceCall>, SurfaceNext) {
    let p = after_properties(a.size, a.element, a.props);
    if p.1 is GiveUp {
        p
    } else {
        let c = after_create(a.surface);
        if c.1 is GiveUp {
            (p.0 + c.0, c.1)
        } else {
            let m = after_measure(len, a.alloc_size);
            if m.1 is GiveUp {
                (p.0 + c.0 + m.0, m.1)
            } else {
                let l = after_lock(a.locks);
                if l.1 is GiveUp {
                    (p.0 + c.0 + m.0 + l.0, l.1)
                } else {
                    let b = after_base(len, a.id, a.base);
                    (p.0 + c.0 + m.0 + l.0 + b.0, b.1)
                }
            }
        }
    }
}

/// How often a call is made.
pub open spec fn times_called(s: Seq<SurfaceCall>, c: SurfaceCall) -> nat
    decreases s.len(),
{
    if s.len() == 0 {
        0
    } else {
        times_called(s.drop_last(), c) + if s.last() == c {
            1nat
        } else {
            0
        }
    }
}

/// One if `b` holds.
pub open spec fn once(b: bool) -> nat {
    if b {
        1
    } else {
        0
    }
}

/// An allocation releases what it has made, each thing once: the properties
/// always, the surface exactly where it fails with one, and the lifetime
/// lock exactly where it fails while holding it. What it grants was zeroed.
pub proof fn law_allocation_releases_once(len: usize, a: Answers)
    ensures
        ({
            let calls = whole_allocation(len, a).0;
            let ready = a.size && a.element && a.props && a.surface;
            &&& times_called(calls, SurfaceCall::ReleaseProps) == once(a.props)
            &&& times_called(calls, SurfaceCall::ReleaseSize) == once(a.size)
            &&& times_called(calls, SurfaceCall::ReleaseElement) == once(a.element)
            &&& times_called(calls, SurfaceCall::ReleaseSurface) == once(
                ready && !succeeds(len, a),
            )
            &&& times_called(
                calls,
                SurfaceCall::Unlock { options: LOCK_READ_WRITE },
            ) == once(ready && a.alloc_size >= len && a.locks && !a.base)
            &&& times_called(calls, SurfaceCall::Zero { len }) == once(succeeds(len, a))
        }),
        whole_allocation(len, a).1 == if succeeds(len, a) {
            SurfaceNext::Granted(Grant { fd: NO_FD, id: a.id, len })
        } else {
            SurfaceNext::GiveUp
        },
{
    reveal_with_fuel(times_called, 6);
    let calls = whole_allocation(len, a).0;
    assert(calls.len() <= 5);
    if a.size && a.element && a.props {
        assert(calls.take(3) =~= seq![
            SurfaceCall::ReleaseProps,
            SurfaceCall::ReleaseSize,
            SurfaceCall::ReleaseElement,
        ]);
    }
}

/// The calls of an allocation come in order: the properties go before the
/// surface does, a lock that is held goes before the surface that it locks,
/// and zeros are written last. Nothing else is called.
pub proof fn law_allocation_calls_in_order(len: usize, a: Answers)
    ensures
        ({
            let calls = whole_allocation(len, a).0;
            let props = seq![
                SurfaceCall::ReleaseProps,
                SurfaceCall::ReleaseSize,
                SurfaceCall::ReleaseElement,
            ];
            if !(a.size && a.element && a.props) {
                calls.len() == once(a.props) + once(a.size) + once(a.element)
            } else if !a.surface {
                calls == props
            } else if a.alloc_size < len || !a.locks {
                calls == props.push(SurfaceCall::ReleaseSurface)
            } else if !a.base {
                calls == props.push(SurfaceCall::Unlock { options: 0 }).push(
                    SurfaceCall::ReleaseSurface,
                )
            } else {
                calls == props.push(SurfaceCall::Zero { len })
            }
        }),
        after_measure(len, a.alloc_size).1 is GiveUp <==> a.alloc_size < len,
        a.alloc_size >= len ==> after_measure(len, a.alloc_size).1 == (SurfaceNext::Lock {
            options: 0,
        }),
        after_properties(true, true, true).1 is Create,
        after_create(true).1 is Measure,
        after_lock(true).1 is Base,
{
    let calls = whole_allocation(len, a).0;
    let props = seq![
        SurfaceCall::ReleaseProps,
        SurfaceCall::ReleaseSize,
        SurfaceCall::ReleaseElement,
    ];
    if a.size && a.element && a.props {
        if !a.surface {
            assert(calls =~= props);
        } else if a.alloc_size < len || !a.locks {
            assert(calls =~= props.push(SurfaceCall::ReleaseSurface));
        } else if !a.base {
            assert(calls =~= props.push(SurfaceCall::Unlock { options: 0 }).push(
                SurfaceCall::ReleaseSurface,
            ));
        } else {
            assert(calls =~= props.push(SurfaceCall::Zero { len }));
        }
    }
}

} // verus!
