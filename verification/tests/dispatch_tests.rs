use osc_midi::codec::{OscMessage, OscPacket, OscValue};
use osc_midi::dispatch::{dispatch, float_bits_to_byte, Command, DispatchError};
use osc_midi::midi::render;

fn message(addr: &[u8], args: Vec<OscValue>) -> OscPacket {
    OscPacket::Message(OscMessage {
        addr: addr.to_vec(),
        args,
    })
}

#[test]
fn unrecognized_address_yields_no_command() {
    let p = message(
        b"/foo",
        vec![
            OscValue::Float(60.0f32.to_bits()),
            OscValue::Float(100.0f32.to_bits()),
        ],
    );
    assert_eq!(dispatch(&p), Ok(None));
}

#[test]
fn note_with_one_argument_is_a_recoverable_error() {
    let p = message(b"/note", vec![OscValue::Float(60.0f32.to_bits())]);
    assert_eq!(dispatch(&p), Err(DispatchError::MissingArguments));
}

#[test]
fn note_with_no_arguments_is_a_recoverable_error() {
    let p = message(b"/note", vec![]);
    assert_eq!(dispatch(&p), Err(DispatchError::MissingArguments));
}

#[test]
fn note_with_non_float_argument_is_a_recoverable_error() {
    let p = message(b"/note", vec![OscValue::Int(60), OscValue::Int(100)]);
    assert_eq!(dispatch(&p), Err(DispatchError::NotAFloat));
    let q = message(
        b"/note",
        vec![
            OscValue::Float(60.0f32.to_bits()),
            OscValue::Str(b"loud".to_vec()),
        ],
    );
    assert_eq!(dispatch(&q), Err(DispatchError::NotAFloat));
}

#[test]
fn note_message_yields_play_note() {
    let p = message(
        b"/note",
        vec![
            OscValue::Float(60.0f32.to_bits()),
            OscValue::Float(100.0f32.to_bits()),
        ],
    );
    assert_eq!(
        dispatch(&p),
        Ok(Some(Command::PlayNote {
            note: 60,
            velocity: 100
        }))
    );
}

#[test]
fn extra_arguments_are_tolerated() {
    let p = message(
        b"/note",
        vec![
            OscValue::Float(1.0f32.to_bits()),
            OscValue::Float(2.0f32.to_bits()),
            OscValue::Int(3),
        ],
    );
    assert_eq!(
        dispatch(&p),
        Ok(Some(Command::PlayNote {
            note: 1,
            velocity: 2
        }))
    );
}

#[test]
fn float_conversion_agrees_with_saturating_cast() {
    let samples: [f32; 16] = [
        0.0, -0.0, 0.5, 0.999, 1.0, 1.5, 60.0, 100.0, 127.9, 128.0, 255.0, 255.9, 256.0, 300.0,
        -1.0, -300.5,
    ];
    for v in samples {
        assert_eq!(float_bits_to_byte(v.to_bits()), v as u8, "value {v}");
    }
    assert_eq!(float_bits_to_byte(f32::NAN.to_bits()), f32::NAN as u8);
    assert_eq!(
        float_bits_to_byte(f32::INFINITY.to_bits()),
        f32::INFINITY as u8
    );
    assert_eq!(
        float_bits_to_byte(f32::NEG_INFINITY.to_bits()),
        f32::NEG_INFINITY as u8
    );
    assert_eq!(float_bits_to_byte(f32::MIN_POSITIVE.to_bits()), 0);
}

#[test]
fn render_play_note_is_a_note_on() {
    let bytes = render(&Command::PlayNote {
        note: 64,
        velocity: 90,
    });
    assert_eq!(bytes, [0x90, 64, 90]);
}
