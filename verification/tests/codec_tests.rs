use protocol::codec::{decode_value, encode_value};
use protocol::error::ErrorKind;
use protocol::play::client_play_registry;
use protocol::registry::Envelope;
use protocol::schema::WireType;
use protocol::value::Value;
use protocol::varint::{read_varint, write_varint};
use protocol::version::ProtocolVersion;

const V: ProtocolVersion = ProtocolVersion(754);

#[test]
fn keep_alive_round_trip() {
    let reg = client_play_registry();
    let env = Envelope { packet: 13, fields: vec![Value::U64(0x1122334455667788)] };
    let mut out: Vec<u8> = Vec::new();
    reg.encode(&env, &mut out, V).unwrap();
    assert_eq!(&out[1..], &[0x11, 0x22, 0x33, 0x44, 0x55, 0x66, 0x77, 0x88]);
    let mut pos: usize = 0;
    let back = reg.decode(&out, &mut pos, V).unwrap();
    assert_eq!(pos, out.len());
    assert_eq!(back.packet, 13);
    match &back.fields[0] {
        Value::U64(x) => assert_eq!(*x, 0x1122334455667788),
        _ => panic!("wrong field kind"),
    }
}

#[test]
fn client_settings_round_trip() {
    let reg = client_play_registry();
    let env = Envelope {
        packet: 6,
        fields: vec![
            Value::Utf8(String::from("en_US")),
            Value::U8(10),
            Value::Tagged { case: 0, fields: vec![] },
            Value::Bool(true),
            Value::U8(0x7F),
            Value::VarInt(1),
        ],
    };
    let mut out: Vec<u8> = Vec::new();
    reg.encode(&env, &mut out, V).unwrap();
    let mut pos: usize = 0;
    let back = reg.decode(&out, &mut pos, V).unwrap();
    assert_eq!(pos, out.len());
    assert_eq!(back.packet, 6);
    match &back.fields[0] {
        Value::Utf8(s) => assert_eq!(s, "en_US"),
        _ => panic!("locale"),
    }
    match &back.fields[1] {
        Value::U8(x) => assert_eq!(*x, 10),
        _ => panic!("view_distance"),
    }
    match &back.fields[2] {
        Value::Tagged { case, fields } => {
            assert_eq!(*case, 0);
            assert!(fields.is_empty());
        },
        _ => panic!("chat_mode"),
    }
    match &back.fields[3] {
        Value::Bool(b) => assert!(*b),
        _ => panic!("chat_colors"),
    }
    match &back.fields[4] {
        Value::U8(x) => assert_eq!(*x, 0x7F),
        _ => panic!("displayed_skin_parts"),
    }
    match &back.fields[5] {
        Value::VarInt(n) => assert_eq!(*n, 1),
        _ => panic!("main_hand"),
    }
}

#[test]
fn unknown_packet_id_consumes_only_the_id() {
    let reg = client_play_registry();
    let bytes = vec![0xE7, 0x07, 0xAA, 0xBB];
    let mut pos: usize = 0;
    let err = reg.decode(&bytes, &mut pos, V).unwrap_err();
    assert_eq!(err.kind, ErrorKind::UnknownPacketId(999));
    assert_eq!(pos, 2);
}

#[test]
fn varint_minimal_encodings() {
    let mut out: Vec<u8> = Vec::new();
    write_varint(0, &mut out, V);
    assert_eq!(out, vec![0x00]);
    out.clear();
    write_varint(127, &mut out, V);
    assert_eq!(out, vec![0x7F]);
    out.clear();
    write_varint(128, &mut out, V);
    assert_eq!(out, vec![0x80, 0x01]);
    out.clear();
    write_varint(-1, &mut out, V);
    assert_eq!(out, vec![0xFF, 0xFF, 0xFF, 0xFF, 0x0F]);
}

#[test]
fn varint_round_trip() {
    for n in [0, 1, 127, 128, 300, 999, i32::MAX, -1, i32::MIN] {
        let mut out: Vec<u8> = Vec::new();
        write_varint(n, &mut out, V);
        let mut pos: usize = 0;
        assert_eq!(read_varint(&out, &mut pos, V).unwrap(), n);
        assert_eq!(pos, out.len());
    }
}

#[test]
fn corrupt_varint_is_rejected() {
    let bytes = vec![0xFF, 0xFF, 0xFF, 0xFF, 0xFF, 0x01];
    let mut pos: usize = 0;
    let err = read_varint(&bytes, &mut pos, V).unwrap_err();
    assert_eq!(err.kind, ErrorKind::CorruptVarInt);
}

#[test]
fn truncation_never_decodes() {
    let reg = client_play_registry();
    let env = Envelope { packet: 13, fields: vec![Value::U64(0xDEAD_BEEF_0BAD_CAFE)] };
    let mut out: Vec<u8> = Vec::new();
    reg.encode(&env, &mut out, V).unwrap();
    for m in 0..out.len() {
        let cut = out[..m].to_vec();
        let mut pos: usize = 0;
        let err = reg.decode(&cut, &mut pos, V).unwrap_err();
        assert_eq!(err.kind, ErrorKind::TruncatedInput);
    }
}

#[test]
fn invalid_utf8_is_annotated() {
    let reg = client_play_registry();
    // ChatMessage (id 4): string of declared length 1 holding a stray continuation byte
    let bytes = vec![0x04, 0x01, 0xFF];
    let mut pos: usize = 0;
    let err = reg.decode(&bytes, &mut pos, V).unwrap_err();
    assert_eq!(err.kind, ErrorKind::InvalidUtf8);
    assert_eq!(err.trail.len(), 1);
    assert_eq!(err.trail[0].owner, "ChatMessage");
    assert_eq!(err.trail[0].field, "message");
}

#[test]
fn unknown_discriminant_is_rejected() {
    let reg = client_play_registry();
    // ClientSettings (id 6) with chat_mode discriminant 9, which names no variant
    let bytes = vec![0x06, 0x01, b'a', 0x0A, 0x09];
    let mut pos: usize = 0;
    let err = reg.decode(&bytes, &mut pos, V).unwrap_err();
    assert_eq!(err.kind, ErrorKind::UnknownVariant(9));
}

#[test]
fn list_count_prefix_is_exact() {
    let ty = WireType::ListOf(Box::new(WireType::VarInt));
    for k in [0usize, 1, 5] {
        let vals: Vec<Value> = (0..k).map(|i| Value::VarInt(i as i32 * 100)).collect();
        let mut out: Vec<u8> = Vec::new();
        encode_value(&ty, &Value::ListOf(vals), &mut out, V).unwrap();
        assert_eq!(out[0] as usize, k);
        let mut pos: usize = 0;
        match decode_value(&ty, &out, &mut pos, V).unwrap() {
            Value::ListOf(back) => assert_eq!(back.len(), k),
            _ => panic!("not a list"),
        }
        assert_eq!(pos, out.len());
    }
}

#[test]
fn optional_field_round_trips() {
    let reg = client_play_registry();
    // AdvancementTab (id 30): present and absent tab identifiers
    for present in [true, false] {
        let v = if present {
            Value::Optional(Some(Box::new(Value::Utf8(String::from("story/root")))))
        } else {
            Value::Optional(None)
        };
        let env = Envelope { packet: 30, fields: vec![v] };
        let mut out: Vec<u8> = Vec::new();
        reg.encode(&env, &mut out, V).unwrap();
        let mut pos: usize = 0;
        let back = reg.decode(&out, &mut pos, V).unwrap();
        assert_eq!(pos, out.len());
        assert_eq!(back.packet, 30);
        match &back.fields[0] {
            Value::Optional(None) => assert!(!present),
            Value::Optional(Some(a)) => match &**a {
                Value::Utf8(x) => {
                    assert!(present);
                    assert_eq!(x, "story/root");
                },
                _ => panic!("inner kind"),
            },
            _ => panic!("field kind"),
        }
    }
}

#[test]
fn plugin_message_keeps_trailing_bytes() {
    let reg = client_play_registry();
    // PluginMessage (id 11): a length-inferred payload consumes the rest
    let env = Envelope {
        packet: 11,
        fields: vec![
            Value::Utf8(String::from("feather:test")),
            Value::Remainder(vec![1, 2, 3, 4, 5]),
        ],
    };
    let mut out: Vec<u8> = Vec::new();
    reg.encode(&env, &mut out, V).unwrap();
    let mut pos: usize = 0;
    let back = reg.decode(&out, &mut pos, V).unwrap();
    assert_eq!(pos, out.len());
    match &back.fields[1] {
        Value::Remainder(b) => assert_eq!(b, &vec![1, 2, 3, 4, 5]),
        _ => panic!("payload"),
    }
}

#[test]
fn rendered_listing_lines() {
    assert_eq!(protocol::textfmt::line("root", 0), "root");
    assert_eq!(protocol::textfmt::line("child", 2), "|-- child");
    let entries = vec![(String::from("a"), 0usize), (String::from("b"), 1)];
    assert_eq!(protocol::textfmt::render_listing(&entries), "a\n|- b");
}
