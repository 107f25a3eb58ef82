//! A frame producer shared across library boundaries.
//!
//! The producer and its buffers have one home; other libraries, and modules
//! of other languages, reach it through opaque handles, status codes and a
//! window of public fields. Threads, the operating system and interpreters
//! are outside: every operation here is one transition, and says what is to
//! be done next.

use vstd::prelude::*;

pub mod abi;
pub mod amod;
pub mod b;
pub mod b_capi;
pub mod bmod;
pub mod bolt;
pub mod capi;
pub mod capture;
pub mod capturing;
pub mod dmabuf;
pub mod dynamic;
pub mod frame;
pub mod heap;
pub mod iosurface;
pub mod laws;
pub mod lending;
pub mod lifecycle;
pub mod oneshot;
pub mod outcomes;
pub mod probe;
pub mod promises;
pub mod py;
pub mod py_b;
pub mod registry;
pub mod rt;
pub mod source;
pub mod storage;
pub mod stream;
pub mod streaming;
pub mod sub;
pub mod subscribe;
pub mod teardown;
pub mod vtable;

verus! {

} // verus!
