use mcproto::varint;
use mcproto::varint::{VarInt, VarIntError};

fn roundtrip(v: i32) {
    let bytes = varint::encode(v);
    assert!(1 <= bytes.len() && bytes.len() <= 5);
    let (decoded, used) = varint::read_slice(&bytes).expect("complete varint");
    assert_eq!(decoded, v);
    assert_eq!(used, bytes.len());
}

#[test]
fn encode_table() {
    assert_eq!(varint::encode(0), vec![0x00]);
    assert_eq!(varint::encode(1), vec![0x01]);
    assert_eq!(varint::encode(127), vec![0x7f]);
    assert_eq!(varint::encode(128), vec![0x80, 0x01]);
    assert_eq!(varint::encode(255), vec![0xff, 0x01]);
    assert_eq!(varint::encode(2147483647), vec![0xff, 0xff, 0xff, 0xff, 0x07]);
    assert_eq!(varint::encode(-1), vec![0xff, 0xff, 0xff, 0xff, 0x0f]);
    assert_eq!(varint::encode(-2147483648), vec![0x80, 0x80, 0x80, 0x80, 0x08]);
}

#[test]
fn roundtrip_boundary_values() {
    for v in [
        i32::MIN,
        -1,
        0,
        1,
        127,
        128,
        16383,
        16384,
        2097151,
        2097152,
        268435455,
        268435456,
        i32::MAX,
    ] {
        roundtrip(v);
    }
}

#[test]
fn roundtrip_randomized() {
    // a fixed linear congruential generator, so the run is reproducible
    let mut state: u64 = 0x1234_5678_9abc_def0;
    for _ in 0..2000 {
        state = state.wrapping_mul(6364136223846793005).wrapping_add(1442695040888963407);
        let v = (state >> 16) as u32 as i32;
        roundtrip(v);
    }
}

#[test]
fn six_continuation_bytes_error() {
    let bytes = [0xffu8, 0xff, 0xff, 0xff, 0xff, 0xff];
    assert_eq!(varint::read_slice(&bytes), None);
    let mut pos = 0usize;
    assert_eq!(varint::read(&bytes, &mut pos), Err(VarIntError::Malformed));
    assert_eq!(pos, 0);
}

#[test]
fn fifth_byte_value_overflow_errors() {
    // five bytes whose accumulated unsigned value reaches 2^32
    let bytes = [0x80u8, 0x80, 0x80, 0x80, 0x10];
    assert_eq!(varint::read_slice(&bytes), None);
    let mut pos = 0usize;
    assert_eq!(varint::read(&bytes, &mut pos), Err(VarIntError::Malformed));
}

#[test]
fn incomplete_needs_more() {
    let bytes = [0x80u8, 0x80];
    assert_eq!(varint::read_slice(&bytes), None);
    let mut pos = 0usize;
    assert_eq!(varint::read(&bytes, &mut pos), Err(VarIntError::Incomplete));
}

#[test]
fn streaming_read_advances() {
    let mut buf = varint::encode(300);
    buf.extend_from_slice(&varint::encode(-7));
    let mut pos = 0usize;
    assert_eq!(varint::read(&buf, &mut pos), Ok(300));
    assert_eq!(varint::read(&buf, &mut pos), Ok(-7));
    assert_eq!(pos, buf.len());
}

#[test]
fn varint_wrapper_to_bytes() {
    assert_eq!(VarInt(498).to_bytes(), vec![0xf2, 0x03]);
}
