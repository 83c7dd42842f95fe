use osc_midi::codec::{decode, OscMessage, OscPacket, OscValue};
use osc_midi::dispatch::{dispatch, Command};
use osc_midi::encode::encode;

fn note_message(note: f32, velocity: f32) -> OscPacket {
    OscPacket::Message(OscMessage {
        addr: b"/note".to_vec(),
        args: vec![
            OscValue::Float(note.to_bits()),
            OscValue::Float(velocity.to_bits()),
        ],
    })
}

fn rosc_note_bytes(note: f32, velocity: f32) -> Vec<u8> {
    rosc::encoder::encode(&rosc::OscPacket::Message(rosc::OscMessage {
        addr: "/note".to_string(),
        args: vec![rosc::OscType::Float(note), rosc::OscType::Float(velocity)],
    }))
    .unwrap()
}

#[test]
fn round_trip_note_message() {
    let bytes = encode(&note_message(60.0, 100.0));
    let packet = decode(&bytes).unwrap();
    let cmd = dispatch(&packet).unwrap();
    assert_eq!(
        cmd,
        Some(Command::PlayNote {
            note: 60,
            velocity: 100
        })
    );
}

#[test]
fn encode_matches_reference_implementation() {
    let ours = encode(&note_message(60.0, 100.0));
    let theirs = rosc_note_bytes(60.0, 100.0);
    assert_eq!(ours, theirs);
}

#[test]
fn decode_reference_bytes() {
    let bytes = rosc_note_bytes(64.0, 90.0);
    let packet = decode(&bytes).unwrap();
    match packet {
        OscPacket::Message(m) => {
            assert_eq!(m.addr, b"/note".to_vec());
            assert_eq!(m.args.len(), 2);
            match (&m.args[0], &m.args[1]) {
                (OscValue::Float(n), OscValue::Float(v)) => {
                    assert_eq!(f32::from_bits(*n), 64.0);
                    assert_eq!(f32::from_bits(*v), 90.0);
                }
                _ => panic!("expected two float arguments"),
            }
        }
        OscPacket::Bundle(_) => panic!("expected a message"),
    }
}

#[test]
fn decode_int_string_blob_arguments() {
    let bytes = rosc::encoder::encode(&rosc::OscPacket::Message(rosc::OscMessage {
        addr: "/mix".to_string(),
        args: vec![
            rosc::OscType::Int(-7),
            rosc::OscType::String("hello".to_string()),
            rosc::OscType::Blob(vec![1, 2, 3]),
        ],
    }))
    .unwrap();
    let packet = decode(&bytes).unwrap();
    match packet {
        OscPacket::Message(m) => {
            assert_eq!(m.addr, b"/mix".to_vec());
            assert_eq!(m.args.len(), 3);
            match &m.args[0] {
                OscValue::Int(x) => assert_eq!(*x, -7),
                _ => panic!("expected an int"),
            }
            match &m.args[1] {
                OscValue::Str(s) => assert_eq!(s, &b"hello".to_vec()),
                _ => panic!("expected a string"),
            }
            match &m.args[2] {
                OscValue::Blob(d) => assert_eq!(d, &vec![1, 2, 3]),
                _ => panic!("expected a blob"),
            }
        }
        OscPacket::Bundle(_) => panic!("expected a message"),
    }
}

#[test]
fn encode_int_string_blob_matches_reference() {
    let ours = encode(&OscPacket::Message(OscMessage {
        addr: b"/mix".to_vec(),
        args: vec![
            OscValue::Int(-7),
            OscValue::Str(b"hello".to_vec()),
            OscValue::Blob(vec![1, 2, 3]),
        ],
    }));
    let theirs = rosc::encoder::encode(&rosc::OscPacket::Message(rosc::OscMessage {
        addr: "/mix".to_string(),
        args: vec![
            rosc::OscType::Int(-7),
            rosc::OscType::String("hello".to_string()),
            rosc::OscType::Blob(vec![1, 2, 3]),
        ],
    }))
    .unwrap();
    assert_eq!(ours, theirs);
}

#[test]
fn malformed_empty_buffer_is_an_error() {
    assert!(decode(&[]).is_err());
}

#[test]
fn malformed_truncated_buffer_is_an_error() {
    let bytes = rosc_note_bytes(60.0, 100.0);
    for cut in 1..bytes.len() {
        assert!(decode(&bytes[..cut]).is_err(), "cut at {cut} should fail");
    }
}

#[test]
fn malformed_random_bytes_are_an_error() {
    // A fixed pseudo-random walk over byte soup: none of it frames a packet.
    let mut state: u32 = 0x1234_5678;
    for len in 1..64usize {
        let mut buf = Vec::with_capacity(len);
        for _ in 0..len {
            state = state.wrapping_mul(1_664_525).wrapping_add(1_013_904_223);
            // Avoid NUL so no type tag string ever terminates cleanly.
            buf.push(((state >> 16) as u8) | 1);
        }
        assert!(decode(&buf).is_err(), "garbage of length {len} should fail");
    }
}

#[test]
fn malformed_unterminated_string_is_an_error() {
    // Four bytes, no NUL: the address never ends.
    assert!(decode(b"/abc").is_err());
}

#[test]
fn malformed_bad_padding_is_an_error() {
    // "/a" then NUL then a nonzero padding byte.
    assert!(decode(&[0x2f, 0x61, 0x00, 0x07]).is_err());
}

#[test]
fn malformed_unknown_type_tag_is_an_error() {
    // "/a\0\0" ",q\0\0" then four bytes: 'q' is not a known tag.
    let mut buf = vec![0x2f, 0x61, 0x00, 0x00, 0x2c, 0x71, 0x00, 0x00];
    buf.extend_from_slice(&[0, 0, 0, 1]);
    assert!(decode(&buf).is_err());
}

#[test]
fn malformed_missing_comma_in_type_tags_is_an_error() {
    // "/a\0\0" then "f\0\0\0": the type tag string must begin with a comma.
    let buf = vec![0x2f, 0x61, 0x00, 0x00, 0x66, 0x00, 0x00, 0x00];
    assert!(decode(&buf).is_err());
}

#[test]
fn malformed_trailing_bytes_are_an_error() {
    let mut bytes = rosc_note_bytes(60.0, 100.0);
    bytes.extend_from_slice(&[0, 0, 0, 0]);
    assert!(decode(&bytes).is_err());
}

#[test]
fn decode_bundle_with_note_message() {
    let bytes = rosc::encoder::encode(&rosc::OscPacket::Bundle(rosc::OscBundle {
        timetag: rosc::OscTime {
            seconds: 5,
            fractional: 9,
        },
        content: vec![rosc::OscPacket::Message(rosc::OscMessage {
            addr: "/note".to_string(),
            args: vec![rosc::OscType::Float(60.0), rosc::OscType::Float(100.0)],
        })],
    }))
    .unwrap();
    let packet = decode(&bytes).unwrap();
    match &packet {
        OscPacket::Bundle(b) => {
            assert_eq!(b.seconds, 5);
            assert_eq!(b.fractional, 9);
            assert_eq!(b.elements.len(), 1);
            match &b.elements[0] {
                OscPacket::Message(m) => assert_eq!(m.addr, b"/note".to_vec()),
                OscPacket::Bundle(_) => panic!("expected a nested message"),
            }
        }
        OscPacket::Message(_) => panic!("expected a bundle"),
    }
    // Bundles are accepted but never dispatched (a documented non-goal).
    assert_eq!(dispatch(&packet), Ok(None));
}

#[test]
fn round_trip_empty_bundle() {
    let bundle = OscPacket::Bundle(osc_midi::codec::OscBundle {
        seconds: 1,
        fractional: 2,
        elements: vec![],
    });
    let bytes = encode(&bundle);
    let packet = decode(&bytes).unwrap();
    match packet {
        OscPacket::Bundle(b) => {
            assert_eq!(b.seconds, 1);
            assert_eq!(b.fractional, 2);
            assert!(b.elements.is_empty());
        }
        OscPacket::Message(_) => panic!("expected a bundle"),
    }
}

#[test]
fn round_trip_nested_bundle() {
    let inner = note_message(12.0, 34.0);
    let bundle = OscPacket::Bundle(osc_midi::codec::OscBundle {
        seconds: 0,
        fractional: 1,
        elements: vec![inner],
    });
    let bytes = encode(&bundle);
    let packet = decode(&bytes).unwrap();
    match packet {
        OscPacket::Bundle(b) => {
            assert_eq!(b.elements.len(), 1);
            match &b.elements[0] {
                OscPacket::Message(m) => {
                    assert_eq!(m.addr, b"/note".to_vec());
                    assert_eq!(m.args.len(), 2);
                }
                OscPacket::Bundle(_) => panic!("expected a nested message"),
            }
        }
        OscPacket::Message(_) => panic!("expected a bundle"),
    }
}
