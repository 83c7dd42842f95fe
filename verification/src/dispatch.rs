//! Message dispatcher: turns a decoded packet into an instrument command.
//!
//! Only messages addressed exactly `/note` are recognized; they must carry
//! at least two float arguments, the note number and the velocity. Each
//! float is converted to a byte by clamping to `[0, 255]` and truncating
//! toward zero, so values outside the byte range have a defined meaning
//! instead of wrapping. Bundles and other addresses produce no command.

use vstd::prelude::*;

use crate::codec::{OscPacket, OscValue, PacketModel, ValueModel};

verus! {

/// An instrument command derived from a recognized message.
#[derive(Clone, Copy, Debug, PartialEq, Eq, Structural)]
pub enum Command {
    /// Begin sounding a note: MIDI note number and velocity.
    PlayNote { note: u8, velocity: u8 },
}

/// A recognized address whose arguments do not fit its shape.
#[derive(Clone, Copy, Debug, PartialEq, Eq, Structural)]
pub enum DispatchError {
    /// `/note` arrived with fewer than two arguments.
    MissingArguments,
    /// A `/note` argument is not a float.
    NotAFloat,
}

/// The bytes of the address `/note`.
pub open spec fn note_address() -> Seq<u8> {
    seq![0x2fu8, 0x6eu8, 0x6fu8, 0x74u8, 0x65u8]
}

/// The divisor that scales a mantissa down to the integer part of the
/// float, for exponents whose value lies in `[1, 256)`.
pub open spec fn mantissa_divisor(exp: int) -> int {
    if exp == 127 {
        0x80_0000
    } else if exp == 128 {
        0x40_0000
    } else if exp == 129 {
        0x20_0000
    } else if exp == 130 {
        0x10_0000
    } else if exp == 131 {
        0x8_0000
    } else if exp == 132 {
        0x4_0000
    } else if exp == 133 {
        0x2_0000
    } else {
        0x1_0000
    }
}

/// Clamp-then-truncate conversion from an IEEE 754 single-precision bit
/// pattern to a byte: NaN and every value below zero give 0, values of 256
/// or more give 255, and values in between keep their integer part.
pub open spec fn float_to_byte(bits: u32) -> u8 {
    let b = bits as int;
    let exp = (b / 0x80_0000) % 0x100;
    let frac = b % 0x80_0000;
    if exp == 0xff && frac != 0 {
        0u8  // NaN
    } else if b >= 0x8000_0000 {
        0u8  // sign bit set: at or below zero
    } else if exp == 0xff {
        0xffu8  // positive infinity
    } else if exp < 127 {
        0u8  // magnitude below one
    } else if exp >= 135 {
        0xffu8  // 256.0 or more
    } else {
        (((0x80_0000 + frac) / mantissa_divisor(exp)) % 0x100) as u8
    }
}

/// What `dispatch` returns for each packet.
pub open spec fn dispatch_model(p: PacketModel) -> Result<Option<Command>, DispatchError> {
    match p {
        PacketModel::Bundle { .. } => Ok(None),
        PacketModel::Message { addr, args } => {
            if addr != note_address() {
                Ok(None)
            } else if args.len() < 2 {
                Err(DispatchError::MissingArguments)
            } else if !(args[0] is Float) || !(args[1] is Float) {
                Err(DispatchError::NotAFloat)
            } else {
                Ok(
                    Some(
                        Command::PlayNote {
                            note: float_to_byte(args[0]->Float_0),
                            velocity: float_to_byte(args[1]->Float_0),
                        },
                    ),
                )
            }
        },
    }
}

/// Converts a float bit pattern to a byte by clamping to `[0, 255]` and
/// truncating toward zero.
pub fn float_bits_to_byte(bits: u32) -> (r: u8)
    ensures
        r == float_to_byte(bits),
{
    let exp: u32 = (bits / 0x80_0000) % 0x100;
    let frac: u32 = bits % 0x80_0000;
    if exp == 0xff && frac != 0 {
        0
    } else if bits >= 0x8000_0000 {
        0
    } else if exp == 0xff {
        0xff
    } else if exp < 127 {
        0
    } else if exp >= 135 {
        0xff
    } else {
        let d: u32 = if exp == 127 {
            0x80_0000
        } else if exp == 128 {
            0x40_0000
        } else if exp == 129 {
            0x20_0000
        } else if exp == 130 {
            0x10_0000
        } else if exp == 131 {
            0x8_0000
        } else if exp == 132 {
            0x4_0000
        } else if exp == 133 {
            0x2_0000
        } else {
            0x1_0000
        };
        let q: u32 = (0x80_0000 + frac) / d;
        assert(q < 0x100);
        q as u8
    }
}

/// Inspects a decoded packet and extracts the command it calls for.
///
/// Returns `Ok(Some(..))` exactly for a `/note` message whose first two
/// arguments are floats, `Ok(None)` for every bundle and every other
/// address, and an error naming what was wrong with a malformed `/note`
/// message; no packet can make it panic.
pub fn dispatch(packet: &OscPacket) -> (r: Result<Option<Command>, DispatchError>)
    ensures
        r == dispatch_model(packet@),
{
    match packet {
        OscPacket::Bundle(_) => Ok(None),
        OscPacket::Message(m) => {
            let a = &m.addr;
            let is_note = a.len() == 5 && a[0] == 0x2f && a[1] == 0x6e && a[2] == 0x6f && a[3]
                == 0x74 && a[4] == 0x65;
            proof {
                if is_note {
                    assert(m.addr@ =~= note_address());
                } else {
                    assert(m.addr@ != note_address());
                }
            }
            if !is_note {
                Ok(None)
            } else if m.args.len() < 2 {
                Err(DispatchError::MissingArguments)
            } else {
                let n = match &m.args[0] {
                    OscValue::Float(w) => Some(*w),
                    _ => None,
                };
                let v = match &m.args[1] {
                    OscValue::Float(w) => Some(*w),
                    _ => None,
                };
                match (n, v) {
                    (Some(nb), Some(vb)) => Ok(
                        Some(
                            Command::PlayNote {
                                note: float_bits_to_byte(nb),
                                velocity: float_bits_to_byte(vb),
                            },
                        ),
                    ),
                    _ => Err(DispatchError::NotAFloat),
                }
            }
        },
    }
}

/// Law: a message with any address other than `/note` produces no command,
/// so the listener loop writes nothing to the output connection for it.
pub proof fn lemma_unrecognized_address_ignored(p: PacketModel)
    requires
        p is Message,
        p->Message_addr != note_address(),
    ensures
        dispatch_model(p) == Ok::<Option<Command>, DispatchError>(None),
{
}

/// Law: a bundle produces no command, whatever packets it contains; bundle
/// contents are deliberately not expanded.
pub proof fn lemma_bundle_ignored(p: PacketModel)
    requires
        p is Bundle,
    ensures
        dispatch_model(p) == Ok::<Option<Command>, DispatchError>(None),
{
}

/// Law: a `/note` message with fewer than two arguments is a recoverable
/// error, never a crash.
pub proof fn lemma_short_note_recoverable(p: PacketModel)
    requires
        p is Message,
        p->Message_addr == note_address(),
        p->Message_args.len() < 2,
    ensures
        dispatch_model(p) == Err::<Option<Command>, DispatchError>(
            DispatchError::MissingArguments,
        ),
{
}

} // verus!
