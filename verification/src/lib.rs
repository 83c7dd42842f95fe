//! An OSC-to-MIDI bridge library.
//!
//! The library decodes Open Sound Control (OSC) packets from raw datagram
//! bytes, dispatches recognized messages into instrument commands, and
//! renders those commands as raw MIDI wire bytes. All protocol logic is
//! verified; socket and device I/O live outside the library.

use vstd::prelude::*;

pub mod bridge;
pub mod codec;
pub mod dispatch;
pub mod encode;
pub mod midi;

verus! {

/// The largest datagram payload the bridge is prepared to receive in one read.
pub const MTU: usize = 1536;

} // verus!
