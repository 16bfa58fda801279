use bytecodec::Buffer;
use bytecodec::Codec;
use bytecodec::Error;
use bytecodec::LengthPrefixed;
use bytecodec::LittleEndian;
use bytecodec::TryAsU32;
use bytecodec::Windows1252;

#[test]
fn ascii_text_round_trip() {
    let codec = Windows1252(Buffer);
    let text = String::from("Hello");
    let mut out: Vec<u8> = Vec::new();
    codec.encode(&text, &mut out).unwrap();
    assert_eq!(out, b"Hello".to_vec());
    let (back, end): (String, usize) = codec.decode(&out, 0).unwrap();
    assert_eq!(back, text);
    assert_eq!(end, 5);
}

#[test]
fn high_byte_maps_through_the_table_not_identity() {
    let codec = Windows1252(Buffer);
    // 0x80 is the euro sign in Windows-1252, not U+0080
    let (text, _): (String, usize) = codec.decode(&[0x80], 0).unwrap();
    assert_eq!(text, "\u{20AC}");
    // and the euro sign maps back to the single byte 0x80
    let mut out: Vec<u8> = Vec::new();
    codec.encode(&text, &mut out).unwrap();
    assert_eq!(out, vec![0x80]);
}

#[test]
fn umlaut_round_trip() {
    let codec = Windows1252(Buffer);
    let text = String::from("W\u{F6}rld"); // ö
    let mut out: Vec<u8> = Vec::new();
    codec.encode(&text, &mut out).unwrap();
    assert_eq!(out, vec![0x57, 0xF6, 0x72, 0x6C, 0x64]);
    let (back, _): (String, usize) = codec.decode(&out, 0).unwrap();
    assert_eq!(back, text);
}

#[test]
fn unmappable_character_fails_with_position_and_value() {
    let codec = Windows1252(Buffer);
    let text = String::from("ab\u{3A9}c"); // Ω has no Windows-1252 byte
    let mut out: Vec<u8> = Vec::new();
    let r = codec.encode(&text, &mut out);
    assert_eq!(r, Err(Error::UnmappableChar { index: 2, character: '\u{3A9}' }));
    assert!(out.is_empty());
}

#[test]
fn length_prefixed_text() {
    let codec = Windows1252(LengthPrefixed(TryAsU32(LittleEndian), LittleEndian));
    let text = String::from("Hi");
    let mut out: Vec<u8> = Vec::new();
    codec.encode(&text, &mut out).unwrap();
    assert_eq!(out, vec![0x02, 0x00, 0x00, 0x00, 0x48, 0x69]);
    let (back, end): (String, usize) = codec.decode(&out, 0).unwrap();
    assert_eq!(back, text);
    assert_eq!(end, 6);
}

#[test]
fn empty_text() {
    let codec = Windows1252(Buffer);
    let text = String::new();
    let mut out: Vec<u8> = Vec::new();
    codec.encode(&text, &mut out).unwrap();
    assert!(out.is_empty());
    let (back, end): (String, usize) = codec.decode(&out, 0).unwrap();
    assert_eq!(back, "");
    assert_eq!(end, 0);
}
