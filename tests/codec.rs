use valida_rs::codec::{
    decode_frame, decode_u32, decode_u64, encode_decimal, encode_frame, encode_u32, encode_u64,
    read_frame, write_frame,
};
use valida_rs::tape::{InputTape, OutputTape, TapeError};

#[test]
fn decimal_digits() {
    assert_eq!(encode_decimal(0), b"0".to_vec());
    assert_eq!(encode_decimal(7), b"7".to_vec());
    assert_eq!(encode_decimal(1024), b"1024".to_vec());
    assert_eq!(encode_decimal(usize::MAX), usize::MAX.to_string().into_bytes());
}

#[test]
fn u64_is_framed_little_endian() {
    let e = encode_u64(0x0102030405060708);
    assert_eq!(e, b"8\n\x08\x07\x06\x05\x04\x03\x02\x01".to_vec());
    assert_eq!(decode_u64(&e), Some(0x0102030405060708));
}

#[test]
fn round_trips() {
    for v in [0u64, 1, 255, 256, u64::MAX, 0xdeadbeef] {
        assert_eq!(decode_u64(&encode_u64(v)), Some(v));
    }
    for v in [0u32, 1, 65_536, u32::MAX] {
        assert_eq!(decode_u32(&encode_u32(v)), Some(v));
    }
    let payload: Vec<u8> = (0..=255u8).cycle().take(1000).collect();
    let f = encode_frame(&payload);
    assert!(f.starts_with(b"1000\n"));
    assert_eq!(decode_frame(&f), Some((payload, 1005)));
}

#[test]
fn empty_payload() {
    let f = encode_frame(&[]);
    assert_eq!(f, b"0\n".to_vec());
    assert_eq!(decode_frame(&f), Some((Vec::new(), 2)));
}

#[test]
fn bad_frames_are_refused() {
    assert_eq!(decode_frame(b""), None);
    assert_eq!(decode_frame(b"\nabc"), None);
    assert_eq!(decode_frame(b"3"), None);
    assert_eq!(decode_frame(b"3\nab"), None);
    assert_eq!(decode_frame(b"x\nabc"), None);
    assert_eq!(decode_frame(b"99999999999999999999999999\nab"), None);
    assert_eq!(decode_frame(b"3\nabcdef"), Some((b"abc".to_vec(), 5)));
    assert_eq!(decode_u64(&encode_u32(5)), None);
    assert_eq!(decode_u32(&encode_u64(5)), None);
}

#[test]
fn frames_on_the_tapes() {
    let mut out = OutputTape::new();
    write_frame(&mut out, b"hi");
    write_frame(&mut out, b"");
    assert_eq!(out.as_bytes(), b"2\nhi0\n");
    let mut t = InputTape::from_bytes(out.as_bytes());
    assert_eq!(read_frame(&mut t), Ok(b"hi".to_vec()));
    assert_eq!(read_frame(&mut t), Ok(Vec::new()));
    assert_eq!(read_frame(&mut t), Err(TapeError::Exhausted));
}

#[test]
fn partial_and_malformed_frames_on_the_tapes() {
    let mut t = InputTape::new();
    for b in b"3\nab".iter() {
        t.deliver(*b);
    }
    assert_eq!(read_frame(&mut t), Err(TapeError::Incomplete));
    t.deliver(b'c');
    assert_eq!(read_frame(&mut t), Ok(b"abc".to_vec()));
    let mut bad = InputTape::from_bytes(b"1x\nabc");
    assert_eq!(read_frame(&mut bad), Err(TapeError::Malformed));
    assert_eq!(bad.remaining(), 6);
}
