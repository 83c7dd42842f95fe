use osc_midi::bridge::{handle_datagram, DatagramOutcome};
use osc_midi::codec::{OscBundle, OscMessage, OscPacket, OscValue};
use osc_midi::dispatch::DispatchError;
use osc_midi::encode::encode;

fn note_bytes(note: f32, velocity: f32) -> Vec<u8> {
    encode(&OscPacket::Message(OscMessage {
        addr: b"/note".to_vec(),
        args: vec![
            OscValue::Float(note.to_bits()),
            OscValue::Float(velocity.to_bits()),
        ],
    }))
}

#[test]
fn note_datagram_produces_exact_note_on_bytes() {
    let outcome = handle_datagram(&note_bytes(64.0, 90.0));
    assert_eq!(outcome, DatagramOutcome::Play([0x90, 64, 90]));
}

#[test]
fn two_datagrams_produce_two_independent_writes() {
    // A note-on followed by a velocity-zero note-on: two separate writes,
    // with no note-off invented in between.
    let first = handle_datagram(&note_bytes(60.0, 100.0));
    let second = handle_datagram(&note_bytes(60.0, 0.0));
    assert_eq!(first, DatagramOutcome::Play([0x90, 60, 100]));
    assert_eq!(second, DatagramOutcome::Play([0x90, 60, 0]));
}

#[test]
fn unrecognized_address_writes_nothing() {
    let bytes = encode(&OscPacket::Message(OscMessage {
        addr: b"/foo".to_vec(),
        args: vec![
            OscValue::Float(60.0f32.to_bits()),
            OscValue::Float(100.0f32.to_bits()),
        ],
    }));
    assert_eq!(handle_datagram(&bytes), DatagramOutcome::Ignored);
}

#[test]
fn bundle_with_note_inside_writes_nothing() {
    let inner = OscPacket::Message(OscMessage {
        addr: b"/note".to_vec(),
        args: vec![
            OscValue::Float(60.0f32.to_bits()),
            OscValue::Float(100.0f32.to_bits()),
        ],
    });
    let bytes = encode(&OscPacket::Bundle(OscBundle {
        seconds: 0,
        fractional: 1,
        elements: vec![inner],
    }));
    assert_eq!(handle_datagram(&bytes), DatagramOutcome::Ignored);
}

#[test]
fn malformed_datagram_is_dropped() {
    assert_eq!(handle_datagram(&[1, 2, 3]), DatagramOutcome::Malformed);
}

#[test]
fn short_note_message_is_dropped_with_its_reason() {
    let bytes = encode(&OscPacket::Message(OscMessage {
        addr: b"/note".to_vec(),
        args: vec![OscValue::Float(60.0f32.to_bits())],
    }));
    assert_eq!(
        handle_datagram(&bytes),
        DatagramOutcome::BadArguments(DispatchError::MissingArguments)
    );
}

#[test]
fn mtu_matches_one_datagram_read() {
    assert_eq!(osc_midi::MTU, 1536);
}
