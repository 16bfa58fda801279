use bytecodec::Codec;
use bytecodec::IEEE754;
use bytecodec::LittleEndian;

#[test]
fn f32_one_bit_pattern() {
    // the float lives outside the verified core: the test maps it to and from
    // its bits at the boundary, and the codec carries the bit pattern
    let codec = IEEE754(LittleEndian);
    let mut out: Vec<u8> = Vec::new();
    codec.encode(&1.0f32.to_bits(), &mut out).unwrap();
    assert_eq!(out, vec![0x00, 0x00, 0x80, 0x3F]);
    let (bits, end): (u32, usize) = codec.decode(&out, 0).unwrap();
    assert_eq!(end, 4);
    let v = f32::from_bits(bits);
    assert_eq!(v, 1.0f32);
    assert_eq!(v.to_bits(), 1.0f32.to_bits());
}

#[test]
fn f64_round_trip_bit_identical() {
    let codec = IEEE754(LittleEndian);
    let value = -0.1f64;
    let mut out: Vec<u8> = Vec::new();
    codec.encode(&value.to_bits(), &mut out).unwrap();
    assert_eq!(out.len(), 8);
    let (bits, _): (u64, usize) = codec.decode(&out, 0).unwrap();
    assert_eq!(bits, value.to_bits());
}

#[test]
fn f32_nan_pattern_is_preserved() {
    let codec = IEEE754(LittleEndian);
    let pattern: u32 = 0x7FC0_0001; // a NaN payload; any bit pattern is valid
    let mut out: Vec<u8> = Vec::new();
    codec.encode(&pattern, &mut out).unwrap();
    let (bits, _): (u32, usize) = codec.decode(&out, 0).unwrap();
    assert_eq!(bits, pattern);
    assert!(f32::from_bits(bits).is_nan());
}

#[test]
fn i32_through_bit_pattern_codec() {
    let codec = IEEE754(LittleEndian);
    let mut out: Vec<u8> = Vec::new();
    codec.encode(&-5i32, &mut out).unwrap();
    assert_eq!(out, vec![0xFB, 0xFF, 0xFF, 0xFF]);
    let (v, _): (i32, usize) = codec.decode(&out, 0).unwrap();
    assert_eq!(v, -5);
}
