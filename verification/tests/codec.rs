use osc_codec::decode;
use osc_codec::decode_message;
use osc_codec::encode;
use osc_codec::Bundle;
use osc_codec::Message;
use osc_codec::OscColor;
use osc_codec::OscError;
use osc_codec::OscMidiMessage;
use osc_codec::Packet;
use osc_codec::TimeTag;
use osc_codec::Value;

fn roundtrip_value(v: Value) {
    let p = Packet::Message(Message {
        addr: "/t".to_string(),
        args: vec![v],
    });
    let bytes = encode(&p).unwrap();
    assert!(bytes.len() % 4 == 0);
    let back = decode(&bytes).unwrap();
    assert!(back == p);
}

#[test]
fn roundtrip_int() {
    roundtrip_value(Value::Int(42));
    roundtrip_value(Value::Int(-1));
    roundtrip_value(Value::Int(i32::MIN));
    roundtrip_value(Value::Int(i32::MAX));
}

#[test]
fn roundtrip_float_bits() {
    roundtrip_value(Value::Float(1.5f32.to_bits()));
    roundtrip_value(Value::Float(0));
}

#[test]
fn roundtrip_string() {
    roundtrip_value(Value::Str("hello".to_string()));
    roundtrip_value(Value::Str("".to_string()));
    roundtrip_value(Value::Str("abc".to_string()));
}

#[test]
fn roundtrip_blob() {
    roundtrip_value(Value::Blob(vec![1, 2, 3]));
    roundtrip_value(Value::Blob(vec![]));
    roundtrip_value(Value::Blob(vec![0, 255, 0, 255, 7]));
}

#[test]
fn roundtrip_long_and_double() {
    roundtrip_value(Value::Long(-5));
    roundtrip_value(Value::Long(i64::MIN));
    roundtrip_value(Value::Long(i64::MAX));
    roundtrip_value(Value::Double(2.25f64.to_bits()));
}

#[test]
fn roundtrip_time_char_color_midi() {
    roundtrip_value(Value::Time(TimeTag {
        seconds: 123,
        fractional: 456,
    }));
    roundtrip_value(Value::Char(b'x'));
    roundtrip_value(Value::Color(OscColor {
        red: 1,
        green: 2,
        blue: 3,
        alpha: 4,
    }));
    roundtrip_value(Value::Midi(OscMidiMessage {
        port: 0,
        status: 0x90,
        data1: 60,
        data2: 100,
    }));
}

#[test]
fn roundtrip_flags() {
    roundtrip_value(Value::Bool(true));
    roundtrip_value(Value::Bool(false));
    roundtrip_value(Value::Nil);
    roundtrip_value(Value::Inf);
}

#[test]
fn roundtrip_array() {
    roundtrip_value(Value::Array(vec![Value::Int(1), Value::Str("a".to_string())]));
    roundtrip_value(Value::Array(vec![]));
    roundtrip_value(Value::Array(vec![
        Value::Array(vec![Value::Int(7)]),
        Value::Bool(true),
    ]));
}

#[test]
fn roundtrip_message_many_args() {
    let p = Packet::Message(Message {
        addr: "/audio/ch/1".to_string(),
        args: vec![
            Value::Int(3),
            Value::Str("gain".to_string()),
            Value::Blob(vec![9, 9]),
            Value::Bool(false),
        ],
    });
    let bytes = encode(&p).unwrap();
    assert!(bytes.len() % 4 == 0);
    assert!(decode(&bytes).unwrap() == p);
}

#[test]
fn roundtrip_nested_bundle() {
    let inner = Packet::Bundle(Bundle {
        timetag: TimeTag {
            seconds: 9,
            fractional: 8,
        },
        content: vec![Packet::Message(Message {
            addr: "/deep".to_string(),
            args: vec![Value::Int(-7)],
        })],
    });
    let outer = Packet::Bundle(Bundle {
        timetag: TimeTag::immediately(),
        content: vec![
            inner,
            Packet::Message(Message {
                addr: "/top".to_string(),
                args: vec![],
            }),
        ],
    });
    let bytes = encode(&outer).unwrap();
    assert!(bytes.len() % 4 == 0);
    assert!(decode(&bytes).unwrap() == outer);
}

fn immediate_bundle() -> Packet {
    Packet::Bundle(Bundle {
        timetag: TimeTag::immediately(),
        content: vec![Packet::Message(Message {
            addr: "/x".to_string(),
            args: vec![Value::Int(1)],
        })],
    })
}

#[test]
fn bundle_immediately_scenario() {
    let p = immediate_bundle();
    let bytes = encode(&p).unwrap();
    let back = decode(&bytes).unwrap();
    assert!(back == immediate_bundle());
    match back {
        Packet::Bundle(bb) => {
            assert!(bb.timetag.is_immediate());
            assert_eq!(bb.content.len(), 1);
            match &bb.content[0] {
                Packet::Message(m) => {
                    assert_eq!(m.addr, "/x");
                    assert!(m.args == vec![Value::Int(1)]);
                }
                _ => panic!("expected a message"),
            }
        }
        _ => panic!("expected a bundle"),
    }
}

#[test]
fn exact_encoding_of_simple_message() {
    let p = Packet::Message(Message {
        addr: "/x".to_string(),
        args: vec![Value::Int(1)],
    });
    let bytes = encode(&p).unwrap();
    assert_eq!(bytes, b"/x\0\0,i\0\0\x00\x00\x00\x01".to_vec());
}

#[test]
fn truncation_always_errors() {
    let p = Packet::Message(Message {
        addr: "/osc/stream".to_string(),
        args: vec![
            Value::Int(258),
            Value::Str("pad".to_string()),
            Value::Blob(vec![1, 2, 3, 4, 5]),
            Value::Long(-2),
        ],
    });
    let bytes = encode(&p).unwrap();
    for i in 0..bytes.len() {
        assert!(decode(&bytes[..i]).is_err());
    }
}

#[test]
fn type_tag_mismatch_is_typed_error() {
    // ",ii" declares two ints but only one int's bytes follow.
    let mut bytes: Vec<u8> = Vec::new();
    bytes.extend_from_slice(b"/a\0\0,ii\0");
    bytes.extend_from_slice(&[0, 0, 0, 5]);
    assert_eq!(decode(&bytes), Err(OscError::BadArg));
}

#[test]
fn bad_address_rejected_at_decode() {
    assert_eq!(
        decode_message(b"abc\0,\0\0\0"),
        Err(OscError::BadAddress)
    );
}

#[test]
fn missing_comma_means_no_arguments() {
    // The type-tag position holds "x" instead of a comma-led string.
    let m = decode_message(b"/a\0\0x\0\0\0").unwrap();
    assert_eq!(m.addr, "/a");
    assert!(m.args.is_empty());
}

#[test]
fn error_variants_on_malformed_input() {
    // Empty buffer and unrecognized leading byte.
    assert_eq!(decode(b""), Err(OscError::BadPacket));
    assert_eq!(decode(b"xxxx"), Err(OscError::BadPacket));
    // Unterminated address.
    assert_eq!(decode(b"/abc"), Err(OscError::BadString));
    // Non-ASCII byte inside the address.
    assert_eq!(decode(&[47, 200, 0, 0]), Err(OscError::StringError));
    // Negative blob length.
    let mut blob = b"/a\0\0,b\0\0".to_vec();
    blob.extend_from_slice(&[0xFF, 0xFF, 0xFF, 0xFF]);
    assert_eq!(decode(&blob), Err(OscError::BadArg));
    // Recognized but unsupported symbol tag.
    assert_eq!(decode(b"/a\0\0,S\0\0"), Err(OscError::Unimplemented));
    // Damaged bundle marker.
    let mut bundle = b"#bundlX\0".to_vec();
    bundle.extend_from_slice(&[0, 0, 0, 0, 0, 0, 0, 1]);
    assert_eq!(decode(&bundle), Err(OscError::BadBundle));
    // Bundle with a size prefix past the end.
    let mut short = b"#bundle\0".to_vec();
    short.extend_from_slice(&[0, 0, 0, 0, 0, 0, 0, 1]);
    short.extend_from_slice(&[0, 0, 0, 8, 0, 0, 0, 0]);
    assert_eq!(decode(&short), Err(OscError::BadBundle));
}

#[test]
fn encode_rejects_malformed_values() {
    // Address must start with a slash.
    let bad_addr = Packet::Message(Message {
        addr: "x".to_string(),
        args: vec![],
    });
    assert_eq!(encode(&bad_addr), Err(OscError::BadAddress));
    // Strings on the wire cannot carry an embedded null.
    let bad_str = Packet::Message(Message {
        addr: "/a".to_string(),
        args: vec![Value::Str("a\0b".to_string())],
    });
    assert_eq!(encode(&bad_str), Err(OscError::BadArg));
    // Characters must be ASCII.
    let bad_char = Packet::Message(Message {
        addr: "/a".to_string(),
        args: vec![Value::Char(200)],
    });
    assert_eq!(encode(&bad_char), Err(OscError::BadArg));
}

#[test]
fn empty_bundle_roundtrip() {
    let p = Packet::Bundle(Bundle {
        timetag: TimeTag {
            seconds: 1,
            fractional: 2,
        },
        content: vec![],
    });
    let bytes = encode(&p).unwrap();
    assert_eq!(bytes.len(), 16);
    assert!(decode(&bytes).unwrap() == p);
}

#[test]
fn error_messages_name_the_kind() {
    assert_eq!(OscError::BadPacket.message(), "bad OSC packet");
    assert_eq!(OscError::Unimplemented.message(), "unimplemented type tag");
}
