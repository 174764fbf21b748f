use mcproto::codec::{Codec, RawPacket};
use mcproto::de::{Deserializer, Error};
use mcproto::handshake;
use mcproto::protocol::ProtocolState;
use mcproto::ser::Serializer;
use mcproto::status;

#[test]
fn handshake_serializes_to_known_bytes() {
    let p = handshake::Serverbound::ServerListPing {
        version: 498,
        host: "localhost".to_string(),
        port: 25567,
        next_state: ProtocolState::Status,
    };
    let raw = p.into_raw().expect("host fits");
    let expected: Vec<u8> = vec![
        0x00, // packet id
        0xf2, 0x03, // varint(498)
        0x09, 0x6c, 0x6f, 0x63, 0x61, 0x6c, 0x68, 0x6f, 0x73, 0x74, // "localhost"
        0x63, 0xdf, // port 25567
        0x01, // next_state Status
    ];
    assert_eq!(raw.0, expected);
}

#[test]
fn handshake_roundtrip() {
    let p = handshake::Serverbound::ServerListPing {
        version: -1,
        host: "mc.example.com".to_string(),
        port: 25565,
        next_state: ProtocolState::Handshake,
    };
    let raw = p.into_raw().unwrap();
    let q = handshake::Serverbound::decode(&raw.0).unwrap();
    assert_eq!(p, q);
}

#[test]
fn handshake_unknown_id_errors() {
    let body = [0x07u8];
    match handshake::Serverbound::decode(&body) {
        Err(Error::Custom(m)) => assert_eq!(m, "unknown handshake packet id"),
        other => panic!("expected an unknown-id error, got {:?}", other),
    }
}

#[test]
fn handshake_unknown_state_errors() {
    // a valid ping whose next_state index is 2
    let p = handshake::Serverbound::ServerListPing {
        version: 1,
        host: "h".to_string(),
        port: 1,
        next_state: ProtocolState::Status,
    };
    let mut body = p.into_raw().unwrap().0;
    let last = body.len() - 1;
    body[last] = 0x02;
    match handshake::Serverbound::decode(&body) {
        Err(Error::Custom(m)) => assert_eq!(m, "unknown protocol state"),
        other => panic!("expected an unknown-state error, got {:?}", other),
    }
}

#[test]
fn handshake_short_body_errors() {
    let p = handshake::Serverbound::ServerListPing {
        version: 498,
        host: "localhost".to_string(),
        port: 25567,
        next_state: ProtocolState::Status,
    };
    let body = p.into_raw().unwrap().0;
    for k in 0..body.len() {
        assert_eq!(
            handshake::Serverbound::decode(&body[..k]).unwrap_err(),
            Error::PacketLength
        );
    }
}

#[test]
fn status_request_body() {
    assert_eq!(status::Serverbound::Request.into_raw().0, vec![0x00]);
}

#[test]
fn status_response_roundtrip() {
    // server returns "{}": body `00 02 7b 7d`
    let p = status::Clientbound::ServerListResp { data: "{}".to_string() };
    let raw = p.into_raw().expect("data fits");
    assert_eq!(raw.0, vec![0x00, 0x02, 0x7b, 0x7d]);
    let q = status::Clientbound::decode(&raw.0).unwrap();
    assert_eq!(p, q);
}

#[test]
fn status_request_roundtrip_over_framing() {
    // client frame `01 00`; response frame `04 00 02 7b 7d`
    let mut enc = Codec::new();
    let mut wire = Vec::new();
    enc.encode(status::Serverbound::Request.into_raw(), &mut wire).unwrap();
    assert_eq!(wire, vec![0x01, 0x00]);

    let mut dec = Codec::new();
    let mut inbound = vec![0x04u8, 0x00, 0x02, 0x7b, 0x7d];
    let raw = dec.decode(&mut inbound).unwrap().expect("one whole frame");
    match status::Clientbound::decode(&raw.0).unwrap() {
        status::Clientbound::ServerListResp { data } => assert_eq!(data, "{}"),
        other => panic!("unexpected packet {:?}", other),
    }
}

#[test]
fn ping_pong_token_echo() {
    let token = 0x0123456789abcdefu64;
    let raw = status::Serverbound::Ping(token).into_raw();
    assert_eq!(
        raw.0,
        vec![0x01, 0x01, 0x23, 0x45, 0x67, 0x89, 0xab, 0xcd, 0xef]
    );
    let mut enc = Codec::new();
    let mut wire = Vec::new();
    enc.encode(raw, &mut wire).unwrap();
    assert_eq!(wire[0], 0x09);

    // the server echoes the same eight bytes in a pong
    let pong_body = vec![0x01u8, 0x01, 0x23, 0x45, 0x67, 0x89, 0xab, 0xcd, 0xef];
    match status::Clientbound::decode(&pong_body).unwrap() {
        status::Clientbound::Pong(echo) => assert_eq!(echo, token),
        other => panic!("unexpected packet {:?}", other),
    }
}

#[test]
fn status_serverbound_roundtrip() {
    for p in [status::Serverbound::Request, status::Serverbound::Ping(42)] {
        let raw = p.into_raw();
        assert_eq!(status::Serverbound::decode(&raw.0).unwrap(), p);
    }
}

#[test]
fn status_unknown_id_errors() {
    match status::Serverbound::decode(&[0x05]) {
        Err(Error::Custom(m)) => assert_eq!(m, "unknown status packet id"),
        other => panic!("expected an unknown-id error, got {:?}", other),
    }
    match status::Clientbound::decode(&[0x05]) {
        Err(Error::Custom(m)) => assert_eq!(m, "unknown status packet id"),
        other => panic!("expected an unknown-id error, got {:?}", other),
    }
}

#[test]
fn lossy_string_replaces_invalid_utf8() {
    // varint length 4, then 0xff 0xfe inside ASCII: decoded with U+FFFD
    let body = [0x00u8, 0x04, 0x61, 0xff, 0xfe, 0x62];
    match status::Clientbound::decode(&body).unwrap() {
        status::Clientbound::ServerListResp { data } => {
            assert_eq!(data, "a\u{fffd}\u{fffd}b");
        },
        other => panic!("unexpected packet {:?}", other),
    }
}

#[test]
fn primitive_field_roundtrips() {
    let mut s = Serializer::new(Vec::new());
    s.write_bool(true);
    s.write_i8(-5);
    s.write_u16(0xbeef);
    s.write_i16(-2);
    s.write_u32(0xdeadbeef);
    s.write_i32(-123456789);
    s.write_u64(0x0123456789abcdef);
    s.write_i64(i64::MIN);
    s.write_varint(-1);
    s.write_str("héllo").unwrap();
    s.write_bytes(&[1, 2, 3]).unwrap();
    s.write_int_prefixed(&[9, 8]).unwrap();
    s.write_short_prefixed(&[7]).unwrap();
    s.write_rest(&[0xaa, 0xbb]);
    let bytes = s.into_bytes();

    let mut d = Deserializer::from_slice(&bytes);
    assert_eq!(d.read_bool().unwrap(), true);
    assert_eq!(d.read_i8().unwrap(), -5);
    assert_eq!(d.read_u16().unwrap(), 0xbeef);
    assert_eq!(d.read_i16().unwrap(), -2);
    assert_eq!(d.read_u32().unwrap(), 0xdeadbeef);
    assert_eq!(d.read_i32().unwrap(), -123456789);
    assert_eq!(d.read_u64().unwrap(), 0x0123456789abcdef);
    assert_eq!(d.read_i64().unwrap(), i64::MIN);
    assert_eq!(d.read_varint().unwrap(), -1);
    assert_eq!(d.read_string().unwrap(), "héllo");
    assert_eq!(d.read_bytes().unwrap(), vec![1, 2, 3]);
    assert_eq!(d.read_int_prefixed().unwrap(), vec![9, 8]);
    assert_eq!(d.read_short_prefixed().unwrap(), vec![7]);
    assert_eq!(d.read_rest(), vec![0xaa, 0xbb]);
}

#[test]
fn fixed_width_wire_forms() {
    let mut s = Serializer::new(Vec::new());
    s.write_u16(0x0102);
    s.write_i32(-2);
    s.write_int_prefixed(&[0x55]).unwrap();
    s.write_short_prefixed(&[0x66]).unwrap();
    assert_eq!(
        s.into_bytes(),
        vec![
            0x01, 0x02, // u16
            0xff, 0xff, 0xff, 0xfe, // i32 -2
            0x00, 0x00, 0x00, 0x01, 0x55, // INTPREFIXED
            0x00, 0x01, 0x66, // SHORTPREFIXED
        ]
    );
}

#[test]
fn bad_bool_byte_is_hard_error() {
    let mut d = Deserializer::from_slice(&[0x02]);
    assert_eq!(d.read_bool().unwrap_err(), Error::Other);
    let mut d = Deserializer::from_slice(&[]);
    assert_eq!(d.read_bool().unwrap_err(), Error::PacketLength);
}

#[test]
fn short_reads_error() {
    let mut d = Deserializer::from_slice(&[0x00, 0x01]);
    assert_eq!(d.read_u32().unwrap_err(), Error::PacketLength);
    // string length prefix promises more bytes than the packet holds
    let mut d = Deserializer::from_slice(&[0x05, 0x61]);
    assert_eq!(d.read_string().unwrap_err(), Error::PacketLength);
}

#[test]
fn raw_packet_decode_helpers() {
    let raw = RawPacket(vec![0x01, 0, 0, 0, 0, 0, 0, 0, 7]);
    assert_eq!(
        status::Serverbound::decode(&raw.0).unwrap(),
        status::Serverbound::Ping(7)
    );
}
