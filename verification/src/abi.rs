//! The frozen contract between the producer library and its consumers:
//! status codes, storage kinds, frame geometry and descriptors.
//!
//! Every layout here is append-only. Values cross the boundary as plain
//! integers; a consumer must cope with codes that a newer library added.

use vstd::prelude::*;

verus! {

/// Version of the shared window, `ASharedV1`.
pub const A_ABI_VERSION: u32 = 1;

/// Status codes of the fallible entry points: `Okay` is zero, errors are
/// negative, and new codes are only ever appended.
#[derive(Debug, Clone, Copy, PartialEq, Eq, Structural)]
pub enum AStatus {
    Okay,
    /// An internal invariant failed and was caught at the boundary; the
    /// object should only be destroyed.
    Panic,
    InvalidArgument,
    /// The target is exclusively borrowed elsewhere. Transient: the same
    /// call may succeed later.
    Busy,
    /// The kind is valid on this platform but cannot be supplied right now.
    Unavailable,
    /// Never sent: stands for a code that this build does not recognise.
    Unknown,
}

/// The wire code of a status.
pub open spec fn status_code(s: AStatus) -> int {
    match s {
        AStatus::Okay => 0,
        AStatus::Panic => -1,
        AStatus::InvalidArgument => -2,
        AStatus::Busy => -3,
        AStatus::Unavailable => -4,
        AStatus::Unknown => i32::MIN as int,
    }
}

/// The status that a wire code stands for: the one that has this code, or
/// `Unknown` for a code that no status of this build has.
pub open spec fn status_of_code(code: int) -> AStatus {
    if code == status_code(AStatus::Okay) {
        AStatus::Okay
    } else if code == status_code(AStatus::Panic) {
        AStatus::Panic
    } else if code == status_code(AStatus::InvalidArgument) {
        AStatus::InvalidArgument
    } else if code == status_code(AStatus::Busy) {
        AStatus::Busy
    } else if code == status_code(AStatus::Unavailable) {
        AStatus::Unavailable
    } else {
        AStatus::Unknown
    }
}

/// The advisory text of a status.
pub open spec fn status_text(s: AStatus) -> Seq<char> {
    match s {
        AStatus::Okay => "ok"@,
        AStatus::Panic => "internal panic caught at the library boundary"@,
        AStatus::InvalidArgument => "invalid argument"@,
        AStatus::Busy => "target is exclusively borrowed elsewhere"@,
        AStatus::Unavailable => "resource kind unavailable in this environment"@,
        AStatus::Unknown => "unrecognized status code from a newer library"@,
    }
}

impl AStatus {
    /// Reads a wire code, mapping codes appended by a newer library to
    /// `Unknown`.
    pub fn from_code(code: i32) -> (r: AStatus)
        ensures
            r == status_of_code(code as int),
    {
        match code {
            0 => AStatus::Okay,
            -1 => AStatus::Panic,
            -2 => AStatus::InvalidArgument,
            -3 => AStatus::Busy,
            -4 => AStatus::Unavailable,
            _ => AStatus::Unknown,
        }
    }

    /// The wire code of this status.
    pub fn code(self) -> (r: i32)
        ensures
            r == status_code(self),
    {
        match self {
            AStatus::Okay => 0,
            AStatus::Panic => -1,
            AStatus::InvalidArgument => -2,
            AStatus::Busy => -3,
            AStatus::Unavailable => -4,
            AStatus::Unknown => i32::MIN,
        }
    }

    /// Advisory text for logs; never to be parsed.
    pub fn text(self) -> (r: &'static str)
        ensures
            r@ == status_text(self),
    {
        match self {
            AStatus::Okay => "ok",
            AStatus::Panic => "internal panic caught at the library boundary",
            AStatus::InvalidArgument => "invalid argument",
            AStatus::Busy => "target is exclusively borrowed elsewhere",
            AStatus::Unavailable => "resource kind unavailable in this environment",
            AStatus::Unknown => "unrecognized status code from a newer library",
        }
    }

    /// The result that a caller of a fallible entry point sees: `Ok` for
    /// `Okay`, every other status as the error.
    pub fn into_result(self) -> (r: Result<(), AStatus>)
        ensures
            r == status_result(self),
    {
        match self {
            AStatus::Okay => Ok(()),
            e => Err(e),
        }
    }

    /// The status that a result crosses the boundary as.
    pub fn of_result(r: Result<(), AStatus>) -> (s: AStatus)
        ensures
            s == result_status(r),
    {
        match r {
            Ok(()) => AStatus::Okay,
            Err(e) => e,
        }
    }
}

/// `Ok` for `Okay`, every other status as the error.
pub open spec fn status_result(s: AStatus) -> Result<(), AStatus> {
    if s == AStatus::Okay {
        Ok(())
    } else {
        Err(s)
    }
}

/// The status that a result stands for.
pub open spec fn result_status(r: Result<(), AStatus>) -> AStatus {
    match r {
        Ok(()) => AStatus::Okay,
        Err(e) => e,
    }
}

/// A wire code read back is the status that was sent.
pub proof fn law_status_round_trip(s: AStatus)
    ensures
        status_of_code(status_code(s)) == s,
        i32::MIN <= status_code(s) <= 0,
{
}

/// `Okay` is zero and every error is negative, so two statuses never share a
/// code.
pub proof fn law_status_codes(s: AStatus, t: AStatus)
    ensures
        status_code(s) == 0 <==> s == AStatus::Okay,
        s != AStatus::Okay ==> status_code(s) < 0,
        status_code(s) == status_code(t) ==> s == t,
{
}

/// A code that this build does not know is read as `Unknown`, never as
/// success.
pub proof fn law_unknown_codes(code: int)
    requires
        forall|s: AStatus| status_code(s) != code,
    ensures
        status_of_code(code) == AStatus::Unknown,
        status_result(status_of_code(code)) is Err,
{
    assert(status_code(AStatus::Okay) != code);
}

/// A result that crosses the boundary as a wire code is the same result on
/// the other side. The one error that does not survive is `Okay` sent as an
/// error.
pub proof fn law_result_round_trip(r: Result<(), AStatus>)
    requires
        r != Err::<(), AStatus>(AStatus::Okay),
    ensures
        status_result(status_of_code(status_code(result_status(r)))) == r,
{
    law_status_round_trip(result_status(r));
    match r {
        Ok(u) => assert(u == ()),
        Err(e) => {},
    }
}

/// Borrowed view into a buffer: where it starts and how long it is. Carries
/// no ownership.
#[derive(Debug, Clone, Copy, PartialEq, Eq, Structural)]
pub struct ABufView {
    pub ptr: u64,
    pub len: usize,
}

/// Exclusive writable view; `ptr` is null (zero) while the buffer is shared.
#[derive(Debug, Clone, Copy, PartialEq, Eq, Structural)]
pub struct ABufViewMut {
    pub ptr: u64,
    pub len: usize,
}

/// Opaque handle to a producer. Address zero is null.
#[derive(Debug, Clone, Copy, PartialEq, Eq, Structural)]
pub struct AHandle {
    pub addr: u64,
}

/// Opaque handle to a reference-counted buffer. Address zero is null.
#[derive(Debug, Clone, Copy, PartialEq, Eq, Structural)]
pub struct ABuf {
    pub addr: u64,
}

/// Geometry of a frame: rows of pixels of `channels` bytes each, with a row
/// stride in bytes that may exceed `cols * channels`.
#[derive(Debug, Clone, Copy, PartialEq, Eq, Structural)]
pub struct AFrameInfoV1 {
    pub rows: usize,
    pub cols: usize,
    pub channels: usize,
    pub row_stride: usize,
}

/// Process-local heap storage.
pub const A_STORAGE_HEAP: u32 = 0;

/// Linux DMA-BUF, allocated from `/dev/dma_heap`.
pub const A_STORAGE_DMABUF: u32 = 1;

/// macOS `IOSurface`, shareable by its global identifier.
pub const A_STORAGE_IOSURFACE: u32 = 2;

/// Descriptor of a frame's storage, for consumers in other processes.
///
/// - heap: `fd` is -1 and `id` is 0;
/// - DMA-BUF: `fd` is a duplicate that the receiver owns;
/// - `IOSurface`: `id` is the global identifier.
#[derive(Debug, Clone, Copy, PartialEq, Eq, Structural)]
pub struct AFrameDescV1 {
    pub kind: u32,
    pub _pad: u32,
    pub fd: i32,
    pub id: u32,
    pub offset: usize,
    pub len: usize,
}

/// The four characters of a DRM format code, least significant first.
pub open spec fn fourcc_value(a: u8, b: u8, c: u8, d: u8) -> int {
    a + 0x100 * b + 0x1_0000 * c + 0x100_0000 * d
}

/// Builds a DRM-style format code from four ASCII characters.
pub fn fourcc(a: u8, b: u8, c: u8, d: u8) -> (r: u32)
    ensures
        r == fourcc_value(a, b, c, d),
{
    let (wa, wb, wc, wd): (u32, u32, u32, u32) = (a as u32, b as u32, c as u32, d as u32);
    assert(wa < 0x100 && wb < 0x100 && wc < 0x100 && wd < 0x100 ==> (wa | (wb << 8u32) | (wc
        << 16u32) | (wd << 24u32)) == wa + 0x100 * wb + 0x1_0000 * wc + 0x100_0000 * wd)
        by (bit_vector);
    wa | (wb << 8u32) | (wc << 16u32) | (wd << 24u32)
}

/// `DRM_FORMAT_RGBA8888`: the format of the four-channel frames here.
pub const A_FOURCC_RGBA8888: u32 = 0x3432_4152;

/// `DRM_FORMAT_MOD_LINEAR`: rows in order, `stride` bytes apart.
pub const A_MODIFIER_LINEAR: u64 = 0;

/// The format constant spells `RA24`, and a format code determines its four
/// characters.
pub proof fn law_fourcc(a: u8, b: u8, c: u8, d: u8, e: u8, f: u8, g: u8, h: u8)
    ensures
        A_FOURCC_RGBA8888 == fourcc_value(0x52, 0x41, 0x32, 0x34),
        fourcc_value(a, b, c, d) == fourcc_value(e, f, g, h) ==> a == e && b == f && c == g && d
            == h,
{
}

/// Descriptor of a frame's storage with the pixel format that an importer
/// needs. Begins with the fields of `AFrameDescV1`.
#[derive(Debug, Clone, Copy, PartialEq, Eq, Structural)]
pub struct AFrameDescV2 {
    pub kind: u32,
    pub _pad: u32,
    pub fd: i32,
    pub id: u32,
    pub offset: usize,
    pub len: usize,
    /// DRM format code.
    pub fourcc: u32,
    pub _pad2: u32,
    /// DRM format modifier.
    pub modifier: u64,
    pub width: u32,
    pub height: u32,
    /// Row stride in bytes.
    pub stride: u32,
    /// Planes in this descriptor, always one.
    pub plane_count: u32,
}

/// Delivery on the producer's own thread: nothing is dropped, and a slow
/// subscriber slows the stream.
pub const A_DELIVERY_BLOCKING: u32 = 0;

/// Delivery through a one-slot mailbox: the producer never waits, and a
/// frame that was not picked up in time is replaced by the newer one.
pub const A_DELIVERY_LATEST: u32 = 1;

/// Version of the capsule record that a Python consumer reads.
pub const A_PY_CAPI_VERSION: u32 = 5;

/// Attribute under which the producer module publishes its capsule.
pub const A_PY_CAPI_ATTR: &'static str = "_C_API";

/// The function table over the producer's entry points, named by the library
/// instance that it leads to.
#[derive(Debug, Clone, Copy, PartialEq, Eq, Structural)]
pub struct AVtableV1 {
    pub home: u64,
}

/// The capsule record: its version and the function table.
#[derive(Debug, Clone, Copy, PartialEq, Eq, Structural)]
pub struct APyCapiV1 {
    pub abi_version: u32,
    pub vtable: AVtableV1,
}

/// Size in bytes of the shared window.
pub const A_SHARED_SIZE: u32 = 64;

/// IEEE 754 encoding of the scale that every producer starts with, 1.5.
pub const A_SCALE_BITS: u64 = 0x3FF8_0000_0000_0000;

/// The window that the producer exposes by address: consumers read the
/// fields directly. `scale_bits` is the IEEE 754 encoding of the scale.
#[derive(Debug, Clone, Copy)]
pub struct ASharedV1 {
    pub abi_version: u32,
    pub struct_size: u32,
    pub id: u64,
    pub counter: u64,
    pub scale_bits: u64,
    pub fd: i32,
    pub _pad: u32,
    pub _reserved: [u8; 24],
}

/// The wire codes and their meaning, in both directions: what a peer that
/// knows only the numbers relies on.
pub proof fn law_wire_codes(s: AStatus, code: int)
    ensures
        s == AStatus::Okay <==> status_code(s) == 0,
        s == AStatus::Panic <==> status_code(s) == -1,
        s == AStatus::InvalidArgument <==> status_code(s) == -2,
        s == AStatus::Busy <==> status_code(s) == -3,
        s == AStatus::Unavailable <==> status_code(s) == -4,
        status_of_code(code) == AStatus::Okay <==> code == 0,
        status_of_code(code) == AStatus::Panic <==> code == -1,
        status_of_code(code) == AStatus::InvalidArgument <==> code == -2,
        status_of_code(code) == AStatus::Busy <==> code == -3,
        status_of_code(code) == AStatus::Unavailable <==> code == -4,
        status_of_code(code) == AStatus::Unknown <==> code < -4 || code > 0,
        status_result(s) is Ok <==> s == AStatus::Okay,
        status_result(s) matches Err(e) ==> e == s,
{
}

/// The text of every status, as a log shows it; no two are the same.
pub proof fn law_status_texts(s: AStatus, t: AStatus)
    ensures
        status_text(s) == match s {
            AStatus::Okay => "ok"@,
            AStatus::Panic => "internal panic caught at the library boundary"@,
            AStatus::InvalidArgument => "invalid argument"@,
            AStatus::Busy => "target is exclusively borrowed elsewhere"@,
            AStatus::Unavailable => "resource kind unavailable in this environment"@,
            AStatus::Unknown => "unrecognized status code from a newer library"@,
        },
        s != t ==> status_text(s) != status_text(t),
{
    reveal_strlit("ok");
    reveal_strlit("internal panic caught at the library boundary");
    reveal_strlit("invalid argument");
    reveal_strlit("target is exclusively borrowed elsewhere");
    reveal_strlit("resource kind unavailable in this environment");
    reveal_strlit("unrecognized status code from a newer library");
    assert(status_text(AStatus::Okay)[0] == 'o');
    assert(status_text(AStatus::Panic)[2] == 't');
    assert(status_text(AStatus::InvalidArgument)[2] == 'v');
    assert(status_text(AStatus::Busy)[0] == 't');
    assert(status_text(AStatus::Unavailable)[0] == 'r');
    assert(status_text(AStatus::Unknown)[0] == 'u');
}

/// A format code holds its four characters as bytes, the first lowest.
pub proof fn law_fourcc_bytes(a: u8, b: u8, c: u8, d: u8)
    ensures
        fourcc_value(a, b, c, d) % 0x100 == a,
        (fourcc_value(a, b, c, d) / 0x100) % 0x100 == b,
        (fourcc_value(a, b, c, d) / 0x1_0000) % 0x100 == c,
        fourcc_value(a, b, c, d) / 0x100_0000 == d,
{
}

} // verus!
