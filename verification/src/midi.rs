//! MIDI emitter: maps an instrument command to raw MIDI wire bytes.
//!
//! The only command is `PlayNote`, rendered as a three-byte Note-On message
//! on channel 0. The bridge never emits a Note-Off on its own: a sender
//! that wants silence sends another `/note` message with velocity zero.

use vstd::prelude::*;

use crate::dispatch::Command;

verus! {

/// MIDI status byte for Note-On, channel 0.
pub const NOTE_ON: u8 = 0x90;

/// The wire bytes of a command: status byte, note number, velocity.
pub open spec fn midi_bytes(c: Command) -> Seq<u8> {
    match c {
        Command::PlayNote { note, velocity } => seq![NOTE_ON, note, velocity],
    }
}

/// Renders a command as the three MIDI bytes to write to the output device.
pub fn render(c: &Command) -> (r: [u8; 3])
    ensures
        r@ == midi_bytes(*c),
{
    match c {
        Command::PlayNote { note, velocity } => {
            let out: [u8; 3] = [NOTE_ON, *note, *velocity];
            proof {
                assert(out@ =~= midi_bytes(*c));
            }
            out
        },
    }
}

} // verus!
