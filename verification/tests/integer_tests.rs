use bytecodec::Codec;
use bytecodec::Error;
use bytecodec::LittleEndian;

#[test]
fn u32_little_endian_byte_order() {
    let codec = LittleEndian;
    let mut out: Vec<u8> = Vec::new();
    codec.encode(&0x01020304u32, &mut out).unwrap();
    assert_eq!(out, vec![0x04, 0x03, 0x02, 0x01]);
    let (v, end): (u32, usize) = codec.decode(&out, 0).unwrap();
    assert_eq!(v, 0x01020304);
    assert_eq!(end, 4);
}

#[test]
fn u8_round_trip() {
    let codec = LittleEndian;
    let mut out: Vec<u8> = Vec::new();
    codec.encode(&0xABu8, &mut out).unwrap();
    assert_eq!(out, vec![0xAB]);
    let (v, end): (u8, usize) = codec.decode(&out, 0).unwrap();
    assert_eq!(v, 0xAB);
    assert_eq!(end, 1);
}

#[test]
fn u16_round_trip() {
    let codec = LittleEndian;
    let mut out: Vec<u8> = Vec::new();
    codec.encode(&0xBEEFu16, &mut out).unwrap();
    assert_eq!(out, vec![0xEF, 0xBE]);
    let (v, _): (u16, usize) = codec.decode(&out, 0).unwrap();
    assert_eq!(v, 0xBEEF);
}

#[test]
fn u64_round_trip() {
    let codec = LittleEndian;
    let mut out: Vec<u8> = Vec::new();
    codec.encode(&0x0102030405060708u64, &mut out).unwrap();
    assert_eq!(out, vec![0x08, 0x07, 0x06, 0x05, 0x04, 0x03, 0x02, 0x01]);
    let (v, _): (u64, usize) = codec.decode(&out, 0).unwrap();
    assert_eq!(v, 0x0102030405060708);
}

#[test]
fn i32_negative_two_complement() {
    let codec = LittleEndian;
    let mut out: Vec<u8> = Vec::new();
    codec.encode(&-2i32, &mut out).unwrap();
    assert_eq!(out, vec![0xFE, 0xFF, 0xFF, 0xFF]);
    let (v, _): (i32, usize) = codec.decode(&out, 0).unwrap();
    assert_eq!(v, -2);
}

#[test]
fn i64_negative_round_trip() {
    let codec = LittleEndian;
    let mut out: Vec<u8> = Vec::new();
    codec.encode(&-1i64, &mut out).unwrap();
    assert_eq!(out, vec![0xFF; 8]);
    let (v, _): (i64, usize) = codec.decode(&out, 0).unwrap();
    assert_eq!(v, -1);
}

#[test]
fn short_input_is_a_length_error() {
    let codec = LittleEndian;
    let r: Result<(u32, usize), Error> = codec.decode(&[0x04, 0x03, 0x02], 0);
    assert_eq!(r, Err(Error::Length { obtained: 3, expected: 4 }));
    let r: Result<(u16, usize), Error> = codec.decode(&[0x04], 1);
    assert_eq!(r, Err(Error::Length { obtained: 0, expected: 2 }));
}

#[test]
fn decode_mid_buffer_leaves_the_rest() {
    let codec = LittleEndian;
    let bytes = [0xAA, 0x01, 0x00, 0xBB];
    let (v, end): (u16, usize) = codec.decode(&bytes, 1).unwrap();
    assert_eq!(v, 1);
    assert_eq!(end, 3);
}
