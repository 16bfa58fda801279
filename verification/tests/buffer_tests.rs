use bytecodec::Buffer;
use bytecodec::Codec;
use bytecodec::Literal;
use bytecodec::LittleEndian;
use bytecodec::Sequence;

#[test]
fn buffer_passes_bytes_through() {
    let codec = Buffer;
    let values: Vec<u8> = vec![1, 2, 3];
    let mut out: Vec<u8> = Vec::new();
    codec.encode(&values, &mut out).unwrap();
    assert_eq!(out, values);
    let (back, end): (Vec<u8>, usize) = codec.decode(&out, 0).unwrap();
    assert_eq!(back, values);
    assert_eq!(end, 3);
}

#[test]
fn buffer_takes_everything_after_pos() {
    let codec = Buffer;
    let (back, end): (Vec<u8>, usize) = codec.decode(&[9, 8, 7, 6], 2).unwrap();
    assert_eq!(back, vec![7, 6]);
    assert_eq!(end, 4);
}

#[test]
fn buffer_empty_tail() {
    let codec = Buffer;
    let (back, end): (Vec<u8>, usize) = codec.decode(&[1, 2], 2).unwrap();
    assert!(back.is_empty());
    assert_eq!(end, 2);
}

#[test]
fn seed_and_view_protocol() {
    // the decode step is derived without consuming the codec; the encode view
    // borrows both the codec and the value
    let codec = LittleEndian;
    let value: u16 = 0x1234;
    let mut out: Vec<u8> = Vec::new();
    codec.seeded(&value).encode(&mut out).unwrap();
    assert_eq!(out, vec![0x34, 0x12]);
    let (v, end): (u16, usize) = codec.seed().decode(&out, 0).unwrap();
    assert_eq!(v, 0x1234);
    assert_eq!(end, 2);
    // the codec is still usable after seeding
    let (v2, _): (u16, usize) = codec.seed().decode(&out, 0).unwrap();
    assert_eq!(v2, v);
}

#[test]
fn record_composition() {
    // a magic tag, one little-endian u32 field, then the raw remainder
    let magic = Literal(vec![0x4D, 0x41, 0x50, 0x00]);
    let field = LittleEndian;
    let tail = Sequence(LittleEndian);

    let mut out: Vec<u8> = Vec::new();
    magic.encode(&(), &mut out).unwrap();
    field.encode(&0xCAFEBABEu32, &mut out).unwrap();
    tail.encode(&vec![1u8, 2, 3], &mut out).unwrap();
    assert_eq!(
        out,
        vec![0x4D, 0x41, 0x50, 0x00, 0xBE, 0xBA, 0xFE, 0xCA, 1, 2, 3]
    );

    let ((), pos1) = magic.decode(&out, 0).unwrap();
    let (v, pos2): (u32, usize) = field.decode(&out, pos1).unwrap();
    let (rest, pos3): (Vec<u8>, usize) = tail.decode(&out, pos2).unwrap();
    assert_eq!(v, 0xCAFEBABE);
    assert_eq!(rest, vec![1, 2, 3]);
    assert_eq!(pos3, out.len());
}
