use mcproto::codec::{Codec, FrameError, RawPacket};
use mcproto::varint;

fn decode_one(codec: &mut Codec, buf: &mut Vec<u8>) -> Option<Vec<u8>> {
    match codec.decode(buf) {
        Ok(Some(p)) => Some(p.0),
        Ok(None) => None,
        Err(e) => panic!("decode error: {:?}", e),
    }
}

fn roundtrip_body(threshold: Option<i32>, body: Vec<u8>) {
    let mut enc = Codec::new();
    let mut dec = Codec::new();
    if let Some(t) = threshold {
        enc.set_compression(t);
        dec.set_compression(t);
    }
    let mut wire = Vec::new();
    enc.encode(RawPacket(body.clone()), &mut wire).expect("encode");
    let got = decode_one(&mut dec, &mut wire).expect("one whole frame");
    assert_eq!(got, body);
    assert!(wire.is_empty());
}

#[test]
fn frame_roundtrip_uncompressed_sizes() {
    for len in [1usize, 255, 256, 257, 1 << 20] {
        roundtrip_body(None, vec![0x5a; len]);
    }
}

#[test]
fn frame_roundtrip_compressed_sizes() {
    // bodies straddling the threshold, in both envelope shapes
    for len in [1usize, 255, 256, 257, 1 << 20] {
        roundtrip_body(Some(256), vec![0x5a; len]);
    }
}

#[test]
fn status_request_frame_bytes() {
    // body `00` frames as `01 00` without compression
    let mut codec = Codec::new();
    let mut wire = Vec::new();
    codec.encode(RawPacket(vec![0x00]), &mut wire).unwrap();
    assert_eq!(wire, vec![0x01, 0x00]);

    // the response body `00 02 7b 7d` frames as `04 00 02 7b 7d`
    let mut wire = Vec::new();
    codec.encode(RawPacket(vec![0x00, 0x02, 0x7b, 0x7d]), &mut wire).unwrap();
    assert_eq!(wire, vec![0x04, 0x00, 0x02, 0x7b, 0x7d]);
}

#[test]
fn compressed_frame_below_threshold_bytes() {
    // a 4-byte body under threshold 256: total_len 5, sentinel 0, then the body
    let mut codec = Codec::new();
    codec.set_compression(256);
    let mut wire = Vec::new();
    codec.encode(RawPacket(vec![0x00, 0x02, 0x7b, 0x7d]), &mut wire).unwrap();
    assert_eq!(wire, vec![0x05, 0x00, 0x00, 0x02, 0x7b, 0x7d]);
}

#[test]
fn compressed_frame_above_threshold() {
    // 1 KiB of constant bytes with threshold 256: the envelope carries the
    // uncompressed length and a zlib stream that is far smaller than the body
    let body = vec![0x41u8; 1024];
    let mut enc = Codec::new();
    enc.set_compression(256);
    let mut wire = Vec::new();
    enc.encode(RawPacket(body.clone()), &mut wire).unwrap();
    assert!(wire.len() < body.len());

    let (total, n) = varint::read_slice(&wire).expect("total length varint");
    assert_eq!(n + total as usize, wire.len());
    let (ulen, _) = varint::read_slice(&wire[n..]).expect("uncompressed length varint");
    assert_eq!(ulen, 1024);

    let mut dec = Codec::new();
    dec.set_compression(256);
    let got = decode_one(&mut dec, &mut wire).expect("one whole frame");
    assert_eq!(got, body);
    assert!(wire.is_empty());
}

#[test]
fn decoder_needs_more_on_strict_prefixes() {
    // 100 reproducible pseudo-random frames; every strict prefix must yield
    // "need more data" and leave the buffer untouched
    let mut state: u64 = 0xdead_beef_cafe_f00d;
    let mut rand = move || {
        state = state.wrapping_mul(6364136223846793005).wrapping_add(1442695040888963407);
        (state >> 24) as usize
    };
    for case in 0..100 {
        let len = 1 + rand() % 50;
        let body: Vec<u8> = (0..len).map(|_| rand() as u8).collect();
        let threshold = match case % 3 {
            0 => None,
            1 => Some(0),
            _ => Some(25),
        };
        let mut enc = Codec::new();
        if let Some(t) = threshold {
            enc.set_compression(t);
        }
        let mut wire = Vec::new();
        enc.encode(RawPacket(body), &mut wire).unwrap();
        for k in 0..wire.len() {
            let mut dec = Codec::new();
            if let Some(t) = threshold {
                dec.set_compression(t);
            }
            let mut buf = wire[..k].to_vec();
            assert!(matches!(dec.decode(&mut buf), Ok(None)));
            assert_eq!(buf, &wire[..k]);
        }
    }
}

#[test]
fn two_frames_decode_in_order() {
    let b1 = vec![0x11u8, 0x22, 0x33];
    let b2 = vec![0x44u8; 40];
    for threshold in [None, Some(8)] {
        let mut enc = Codec::new();
        let mut dec = Codec::new();
        if let Some(t) = threshold {
            enc.set_compression(t);
            dec.set_compression(t);
        }
        let mut wire = Vec::new();
        enc.encode(RawPacket(b1.clone()), &mut wire).unwrap();
        enc.encode(RawPacket(b2.clone()), &mut wire).unwrap();
        assert_eq!(decode_one(&mut dec, &mut wire).expect("first frame"), b1);
        assert_eq!(decode_one(&mut dec, &mut wire).expect("second frame"), b2);
        assert!(wire.is_empty());
        assert!(matches!(dec.decode(&mut wire), Ok(None)));
    }
}

#[test]
fn malformed_length_varint_errors() {
    let mut dec = Codec::new();
    let mut buf = vec![0xffu8, 0xff, 0xff, 0xff, 0xff, 0xff];
    assert_eq!(dec.decode(&mut buf), Err(FrameError::BadLengthVarint));
}

#[test]
fn zero_length_frame_is_invalid() {
    // L = 0 under no compression leaves no room for a packet id
    let mut dec = Codec::new();
    let mut buf = vec![0x00u8];
    assert_eq!(dec.decode(&mut buf), Err(FrameError::EmptyPacket));

    // L = 1 with U = 0 is a zero-length compressed payload
    let mut dec = Codec::new();
    dec.set_compression(256);
    let mut buf = vec![0x01u8, 0x00];
    assert_eq!(dec.decode(&mut buf), Err(FrameError::EmptyPacket));
}

#[test]
fn wrong_uncompressed_length_errors() {
    // frame a compressed body, then corrupt the declared uncompressed length
    let body = vec![0x41u8; 300];
    let mut enc = Codec::new();
    enc.set_compression(256);
    let mut wire = Vec::new();
    enc.encode(RawPacket(body), &mut wire).unwrap();
    let (_, n) = varint::read_slice(&wire).unwrap();
    // varint(300) is two bytes starting at n; bump its low group
    wire[n] ^= 0x01;
    let mut dec = Codec::new();
    dec.set_compression(256);
    assert_eq!(dec.decode(&mut wire), Err(FrameError::BadDataLength));
}

#[test]
fn garbage_zlib_stream_errors() {
    // total length 4, uncompressed length 9, then three bytes of non-zlib data
    let mut dec = Codec::new();
    dec.set_compression(0);
    let mut buf = vec![0x04u8, 0x09, 0xde, 0xad, 0x42];
    assert_eq!(dec.decode(&mut buf), Err(FrameError::Inflate));
}

#[test]
fn negative_threshold_always_compresses() {
    let body = vec![0x07u8; 4];
    let mut enc = Codec::new();
    enc.set_compression(-1);
    let mut wire = Vec::new();
    enc.encode(RawPacket(body.clone()), &mut wire).unwrap();
    let (_, n) = varint::read_slice(&wire).unwrap();
    let (ulen, _) = varint::read_slice(&wire[n..]).unwrap();
    assert_eq!(ulen, 4);
    let mut dec = Codec::new();
    dec.set_compression(-1);
    assert_eq!(decode_one(&mut dec, &mut wire).expect("frame"), body);
}
