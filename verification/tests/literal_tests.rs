use bytecodec::Codec;
use bytecodec::Error;
use bytecodec::Literal;

#[test]
fn literal_encode_is_the_constant() {
    let codec = Literal(vec![0x4D, 0x5A, 0x90]);
    let mut out: Vec<u8> = Vec::new();
    codec.encode(&(), &mut out).unwrap();
    assert_eq!(out, vec![0x4D, 0x5A, 0x90]);
}

#[test]
fn literal_decode_accepts_its_own_encoding() {
    let codec = Literal(vec![0x4D, 0x5A, 0x90]);
    let mut out: Vec<u8> = Vec::new();
    codec.encode(&(), &mut out).unwrap();
    out.push(0xFF); // trailing bytes belong to whatever comes next
    let ((), end) = codec.decode(&out, 0).unwrap();
    assert_eq!(end, 3);
}

#[test]
fn literal_mismatch_reports_index_expected_received() {
    let codec = Literal(vec![0x01, 0x02, 0x04]);
    let r: Result<((), usize), Error> = codec.decode(&[0x01, 0x02, 0x03], 0);
    assert_eq!(r, Err(Error::Mismatch { index: 2, expected: 0x04, received: 0x03 }));
}

#[test]
fn literal_truncated_input_reports_lengths() {
    let codec = Literal(vec![0x01, 0x02, 0x04]);
    let r: Result<((), usize), Error> = codec.decode(&[0x01, 0x02], 0);
    assert_eq!(r, Err(Error::Length { obtained: 2, expected: 3 }));
}

#[test]
fn literal_empty_consumes_nothing() {
    let codec = Literal(Vec::new());
    let ((), end) = codec.decode(&[0xAA], 0).unwrap();
    assert_eq!(end, 0);
    let mut out: Vec<u8> = Vec::new();
    codec.encode(&(), &mut out).unwrap();
    assert!(out.is_empty());
}

#[test]
fn literal_decode_mid_buffer() {
    let codec = Literal(vec![0xBE, 0xEF]);
    let ((), end) = codec.decode(&[0x00, 0xBE, 0xEF, 0x01], 1).unwrap();
    assert_eq!(end, 3);
}
