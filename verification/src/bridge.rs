//! The processing step of the listener loop.
//!
//! The loop itself alternates between waiting on the socket and processing
//! one datagram; the waiting, the device write and the diagnostics are I/O
//! and live outside the library. This module holds the whole decision:
//! given the raw bytes of one datagram, say exactly what the loop does with
//! them — which bytes go to the output device, or why nothing is written.
//! Every failure a datagram can cause is a value here, never a panic, so no
//! network input can bring the loop down.

use vstd::prelude::*;

use crate::codec::{decode, parse_packet};
use crate::dispatch::{dispatch, dispatch_model, DispatchError};
use crate::midi::midi_bytes;

verus! {

/// What the listener loop does with one datagram.
#[derive(Clone, Copy, Debug, PartialEq, Eq)]
pub enum DatagramOutcome {
    /// A `/note` message was recognized: write these bytes to the device.
    Play([u8; 3]),
    /// A bundle or an unrecognized address: nothing is written.
    Ignored,
    /// The buffer is not a well-formed OSC packet: dropped.
    Malformed,
    /// A `/note` message with the wrong arguments: dropped.
    BadArguments(DispatchError),
}

/// Decodes and dispatches one datagram.
///
/// Returns `Play` with the exact MIDI bytes for a well-formed `/note`
/// message, `Ignored` for every other well-formed packet (bundles are not
/// expanded, by design), and a recoverable outcome for everything
/// malformed; the loop continues after any of them.
pub fn handle_datagram(buf: &[u8]) -> (r: DatagramOutcome)
    ensures
        match parse_packet(buf@) {
            None => r == DatagramOutcome::Malformed,
            Some(p) => match dispatch_model(p) {
                Err(e) => r == DatagramOutcome::BadArguments(e),
                Ok(None) => r == DatagramOutcome::Ignored,
                Ok(Some(c)) => r matches DatagramOutcome::Play(bytes) && bytes@ == midi_bytes(c),
            },
        },
{
    match decode(buf) {
        Err(_) => DatagramOutcome::Malformed,
        Ok(packet) => match dispatch(&packet) {
            Err(e) => DatagramOutcome::BadArguments(e),
            Ok(None) => DatagramOutcome::Ignored,
            Ok(Some(c)) => DatagramOutcome::Play(crate::midi::render(&c)),
        },
    }
}

} // verus!
