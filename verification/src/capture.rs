//! One-shot captures: a frame for one callback, once.

use vstd::prelude::*;
use crate::frame::Frame;
use crate::heap::{nothing, Holding};
use crate::sub::frame_refs;

verus! {

/// First byte of every captured frame.
pub const CAPTURE_SEED: u8 = 0xCA;

/// How long a capture takes, in milliseconds.
pub const CAPTURE_DELAY_MS: u32 = 2;

/// A capture that can be cancelled, from its start until its callback has
/// returned.
#[derive(Clone, Copy, Debug, PartialEq, Eq, Structural)]
pub struct CaptureEntry {
    pub id: u64,
    pub cb: u64,
    /// Storage kind of the frame, fixed when the capture was started.
    pub kind: u32,
    pub cancelled: bool,
    /// Whether `cancel_capture` can still reach it.
    pub listed: bool,
    /// Whether the callback was called.
    pub fired: bool,
}

/// What the thread of a capture is to do.
#[derive(Debug)]
pub enum CaptureStep {
    /// Call the callback; it owns the frame. No frame means cancelled.
    Complete { cb: u64, frame: Option<Frame> },
    /// The callback was called already, or there is no such capture.
    Nothing,
}

/// The references that leave with a step.
pub open spec fn capture_refs(s: CaptureStep) -> Holding {
    match s {
        CaptureStep::Complete { frame, .. } => frame_refs(frame),
        CaptureStep::Nothing => nothing(),
    }
}

/// A capture that cannot be cancelled, from its start until its callback has
/// returned. Such captures are numbered on their own.
#[derive(Clone, Copy, Debug, PartialEq, Eq, Structural)]
pub struct CaptureJob {
    pub id: u64,
    pub cb: u64,
    /// Storage kind of the frame, fixed when the capture was started.
    pub kind: u32,
    /// Whether the callback was called.
    pub fired: bool,
}

} // verus!
