use bytecodec::Codec;
use bytecodec::Error;
use bytecodec::LittleEndian;
use bytecodec::TryAsI32;
use bytecodec::TryAsU32;

#[test]
fn usize_through_u32_round_trip() {
    let codec = TryAsU32(LittleEndian);
    let mut out: Vec<u8> = Vec::new();
    codec.encode(&300usize, &mut out).unwrap();
    assert_eq!(out, vec![0x2C, 0x01, 0x00, 0x00]);
    let (v, end): (usize, usize) = codec.decode(&out, 0).unwrap();
    assert_eq!(v, 300);
    assert_eq!(end, 4);
}

#[test]
fn usize_too_large_for_u32_overflows_on_encode() {
    let codec = TryAsU32(LittleEndian);
    let too_big = u32::MAX as usize + 1;
    let mut out: Vec<u8> = Vec::new();
    assert_eq!(codec.encode(&too_big, &mut out), Err(Error::Overflow));
    assert!(out.is_empty());
}

#[test]
fn u32_max_still_fits() {
    let codec = TryAsU32(LittleEndian);
    let v = u32::MAX as usize;
    let mut out: Vec<u8> = Vec::new();
    codec.encode(&v, &mut out).unwrap();
    assert_eq!(out, vec![0xFF, 0xFF, 0xFF, 0xFF]);
    let (back, _): (usize, usize) = codec.decode(&out, 0).unwrap();
    assert_eq!(back, v);
}

#[test]
fn usize_through_i32_round_trip() {
    let codec = TryAsI32(LittleEndian);
    let mut out: Vec<u8> = Vec::new();
    codec.encode(&5usize, &mut out).unwrap();
    assert_eq!(out, vec![0x05, 0x00, 0x00, 0x00]);
    let (v, _): (usize, usize) = codec.decode(&out, 0).unwrap();
    assert_eq!(v, 5);
}

#[test]
fn negative_i32_overflows_on_decode() {
    let codec = TryAsI32(LittleEndian);
    let bytes = [0xFE, 0xFF, 0xFF, 0xFF]; // -2
    let r: Result<(usize, usize), Error> = codec.decode(&bytes, 0);
    assert_eq!(r, Err(Error::Overflow));
}

#[test]
fn usize_beyond_i32_overflows_on_encode() {
    let codec = TryAsI32(LittleEndian);
    let too_big = i32::MAX as usize + 1;
    let mut out: Vec<u8> = Vec::new();
    assert_eq!(codec.encode(&too_big, &mut out), Err(Error::Overflow));
    assert!(out.is_empty());
}
