//! The device-execution layer of a transformer forward pass: the shape of a
//! run, the layout of its device buffers and key/value cache, the kernel
//! dispatches with their launch shapes and memory footprints, and the ordered
//! plan of dispatches for one layer at one cache position.
use vstd::prelude::*;

pub mod config;
pub mod dispatch;
pub mod launch;
pub mod layout;
pub mod sequencer;

verus! {

} // verus!
