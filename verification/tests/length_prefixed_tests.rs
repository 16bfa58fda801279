use bytecodec::Codec;
use bytecodec::Error;
use bytecodec::LengthPrefixed;
use bytecodec::LittleEndian;
use bytecodec::TryAsI32;
use bytecodec::TryAsU32;

#[test]
fn length_prefixed_u16_items_exact_bytes() {
    // a 32-bit little-endian count, then 16-bit little-endian items
    let codec = LengthPrefixed(TryAsU32(LittleEndian), LittleEndian);
    let values: Vec<u16> = vec![10, 20, 30];
    let mut out: Vec<u8> = Vec::new();
    codec.encode(&values, &mut out).unwrap();
    assert_eq!(
        out,
        vec![0x03, 0x00, 0x00, 0x00, 0x0A, 0x00, 0x14, 0x00, 0x1E, 0x00]
    );
    let (back, end): (Vec<u16>, usize) = codec.decode(&out, 0).unwrap();
    assert_eq!(back, values);
    assert_eq!(end, 10);
}

#[test]
fn truncated_prefix_claim_reports_obtained_vs_expected() {
    let codec = LengthPrefixed(TryAsU32(LittleEndian), LittleEndian);
    // the prefix claims 5 items but only 2 items' worth of bytes remain
    let bytes = [0x05, 0x00, 0x00, 0x00, 0x0A, 0x00, 0x14, 0x00];
    let r: Result<(Vec<u16>, usize), Error> = codec.decode(&bytes, 0);
    assert_eq!(r, Err(Error::Length { obtained: 2, expected: 5 }));
}

#[test]
fn truncated_length_field_itself() {
    let codec = LengthPrefixed(TryAsU32(LittleEndian), LittleEndian);
    let r: Result<(Vec<u16>, usize), Error> = codec.decode(&[0x05, 0x00], 0);
    assert_eq!(r, Err(Error::Length { obtained: 2, expected: 4 }));
}

#[test]
fn empty_sequence_is_just_the_zero_prefix() {
    let codec = LengthPrefixed(TryAsU32(LittleEndian), LittleEndian);
    let values: Vec<u16> = Vec::new();
    let mut out: Vec<u8> = Vec::new();
    codec.encode(&values, &mut out).unwrap();
    assert_eq!(out, vec![0x00, 0x00, 0x00, 0x00]);
    let (back, end): (Vec<u16>, usize) = codec.decode(&out, 0).unwrap();
    assert!(back.is_empty());
    assert_eq!(end, 4);
}

#[test]
fn signed_prefix_rejects_negative_count() {
    let codec = LengthPrefixed(TryAsI32(LittleEndian), LittleEndian);
    // -1 as the 32-bit count: the width conversion must fail, not wrap
    let bytes = [0xFF, 0xFF, 0xFF, 0xFF, 0x0A, 0x00];
    let r: Result<(Vec<u16>, usize), Error> = codec.decode(&bytes, 0);
    assert_eq!(r, Err(Error::Overflow));
}

#[test]
fn signed_prefix_round_trip() {
    let codec = LengthPrefixed(TryAsI32(LittleEndian), LittleEndian);
    let values: Vec<u32> = vec![0xDEADBEEF, 7];
    let mut out: Vec<u8> = Vec::new();
    codec.encode(&values, &mut out).unwrap();
    assert_eq!(out[..4], [0x02, 0x00, 0x00, 0x00]);
    let (back, _): (Vec<u32>, usize) = codec.decode(&out, 0).unwrap();
    assert_eq!(back, values);
}

#[test]
fn nested_length_prefixed_records() {
    // a length-prefixed sequence of length-prefixed byte strings
    let inner = LengthPrefixed(TryAsU32(LittleEndian), LittleEndian);
    let codec = LengthPrefixed(TryAsU32(LittleEndian), inner);
    let values: Vec<Vec<u8>> = vec![vec![0xAA], vec![0xBB, 0xCC]];
    let mut out: Vec<u8> = Vec::new();
    codec.encode(&values, &mut out).unwrap();
    assert_eq!(
        out,
        vec![
            0x02, 0x00, 0x00, 0x00, // two strings
            0x01, 0x00, 0x00, 0x00, 0xAA, // one byte
            0x02, 0x00, 0x00, 0x00, 0xBB, 0xCC, // two bytes
        ]
    );
    let (back, end): (Vec<Vec<u8>>, usize) = codec.decode(&out, 0).unwrap();
    assert_eq!(back, values);
    assert_eq!(end, out.len());
}
