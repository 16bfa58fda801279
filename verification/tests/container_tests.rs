use bytecodec::Codec;
use bytecodec::Literal;
use bytecodec::TryAsU32;
use bytecodec::Error;
use bytecodec::LittleEndian;
use bytecodec::Sequence;
use bytecodec::SerdeLike;
use bytecodec::Tuple;
use bytecodec::TupleN;

#[test]
fn tuple_round_trip() {
    let codec = Tuple(LittleEndian, 3);
    let values: Vec<u16> = vec![1, 2, 3];
    let mut out: Vec<u8> = Vec::new();
    codec.encode(&values, &mut out).unwrap();
    assert_eq!(out, vec![0x01, 0x00, 0x02, 0x00, 0x03, 0x00]);
    let (back, end): (Vec<u16>, usize) = codec.decode(&out, 0).unwrap();
    assert_eq!(back, values);
    assert_eq!(end, 6);
}

#[test]
fn tuple_arity_mismatch_fails_before_writing() {
    let codec = Tuple(LittleEndian, 3);
    let values: Vec<u16> = vec![1, 2];
    let mut out: Vec<u8> = vec![0x55];
    let r = codec.encode(&values, &mut out);
    assert_eq!(r, Err(Error::Length { obtained: 2, expected: 3 }));
    assert_eq!(out, vec![0x55]); // nothing was written
}

#[test]
fn tuple_truncated_input_reports_items_obtained() {
    let codec = Tuple(LittleEndian, 3);
    // two full u16 items and one stray byte
    let r: Result<(Vec<u16>, usize), Error> = codec.decode(&[1, 0, 2, 0, 9], 0);
    assert_eq!(r, Err(Error::Length { obtained: 2, expected: 3 }));
}

#[test]
fn tuple_of_zero_arity() {
    let codec = Tuple(LittleEndian, 0);
    let values: Vec<u32> = Vec::new();
    let mut out: Vec<u8> = Vec::new();
    codec.encode(&values, &mut out).unwrap();
    assert!(out.is_empty());
    let (back, end): (Vec<u32>, usize) = codec.decode(&[0xAB], 0).unwrap();
    assert!(back.is_empty());
    assert_eq!(end, 0);
}

#[test]
fn tuple_n_round_trip() {
    let codec = TupleN(2, LittleEndian);
    let values: Vec<u32> = vec![7, 8];
    let mut out: Vec<u8> = Vec::new();
    codec.encode(&values, &mut out).unwrap();
    assert_eq!(out, vec![7, 0, 0, 0, 8, 0, 0, 0]);
    let (back, _): (Vec<u32>, usize) = codec.decode(&out, 0).unwrap();
    assert_eq!(back, values);
}

#[test]
fn tuple_n_count_mismatch_on_encode() {
    let codec = TupleN(4, LittleEndian);
    let values: Vec<u32> = vec![7, 8];
    let mut out: Vec<u8> = Vec::new();
    assert_eq!(
        codec.encode(&values, &mut out),
        Err(Error::Length { obtained: 2, expected: 4 })
    );
    assert!(out.is_empty());
}

#[test]
fn nested_tuples() {
    // two rows of three u8 coordinates
    let codec = Tuple(Tuple(LittleEndian, 3), 2);
    let values: Vec<Vec<u8>> = vec![vec![1, 2, 3], vec![4, 5, 6]];
    let mut out: Vec<u8> = Vec::new();
    codec.encode(&values, &mut out).unwrap();
    assert_eq!(out, vec![1, 2, 3, 4, 5, 6]);
    let (back, end): (Vec<Vec<u8>>, usize) = codec.decode(&out, 0).unwrap();
    assert_eq!(back, values);
    assert_eq!(end, 6);
}

#[test]
fn sequence_runs_to_end_of_input() {
    let codec = Sequence(LittleEndian);
    let bytes = [1u8, 0, 2, 0, 3, 0, 4, 0];
    let (back, end): (Vec<u16>, usize) = codec.decode(&bytes, 0).unwrap();
    assert_eq!(back, vec![1, 2, 3, 4]);
    assert_eq!(end, 8);
}

#[test]
fn sequence_round_trip_and_empty() {
    let codec = Sequence(LittleEndian);
    let values: Vec<u32> = vec![10, 20];
    let mut out: Vec<u8> = Vec::new();
    codec.encode(&values, &mut out).unwrap();
    let (back, _): (Vec<u32>, usize) = codec.decode(&out, 0).unwrap();
    assert_eq!(back, values);

    let empty: Vec<u32> = Vec::new();
    let mut out2: Vec<u8> = Vec::new();
    codec.encode(&empty, &mut out2).unwrap();
    assert!(out2.is_empty());
    let (back2, end2): (Vec<u32>, usize) = codec.decode(&out2, 0).unwrap();
    assert!(back2.is_empty());
    assert_eq!(end2, 0);
}

#[test]
fn sequence_propagates_a_trailing_length_error() {
    let codec = Sequence(LittleEndian);
    // three full u16 items, then a lone byte: the last item fails
    let r: Result<(Vec<u16>, usize), Error> = codec.decode(&[1, 0, 2, 0, 3, 0, 9], 0);
    assert_eq!(r, Err(Error::Length { obtained: 1, expected: 2 }));
}

#[test]
fn serde_like_byte_passthrough() {
    let codec = SerdeLike;
    let mut out: Vec<u8> = Vec::new();
    codec.encode(&0x7Fu8, &mut out).unwrap();
    assert_eq!(out, vec![0x7F]);
    let (v, end): (u8, usize) = codec.decode(&out, 0).unwrap();
    assert_eq!(v, 0x7F);
    assert_eq!(end, 1);
}

#[test]
fn sequence_of_native_bytes() {
    let codec = Sequence(SerdeLike);
    let values: Vec<u8> = vec![9, 8, 7];
    let mut out: Vec<u8> = Vec::new();
    codec.encode(&values, &mut out).unwrap();
    assert_eq!(out, values);
    let (back, _): (Vec<u8>, usize) = codec.decode(&out, 0).unwrap();
    assert_eq!(back, values);
}

#[test]
fn reencoding_a_decoded_record_reproduces_its_bytes() {
    let codec = Tuple(LittleEndian, 2);
    let bytes = [0x2A, 0x00, 0x07, 0x01, 0xEE, 0xFF]; // two u16 items + trailing bytes
    let (values, end): (Vec<u16>, usize) = codec.decode(&bytes, 0).unwrap();
    assert_eq!(end, 4);
    let mut out: Vec<u8> = Vec::new();
    codec.encode(&values, &mut out).unwrap();
    assert_eq!(out, bytes[..end].to_vec());
}

#[test]
fn tuple_n_with_a_count_decoded_at_runtime() {
    // the count field arrives first; the item count is composed from it
    let bytes = [0x02, 0x00, 0x00, 0x00, 0xAA, 0xBB];
    let (count, pos): (usize, usize) = TryAsU32(LittleEndian).decode(&bytes, 0).unwrap();
    let codec = TupleN(count, LittleEndian);
    let (items, end): (Vec<u8>, usize) = codec.decode(&bytes, pos).unwrap();
    assert_eq!(items, vec![0xAA, 0xBB]);
    assert_eq!(end, 6);
}

#[test]
fn sequence_of_zero_width_items_errors_instead_of_looping() {
    // an item that consumes nothing can never exhaust the input
    let codec = Sequence(Literal(Vec::new()));
    let r: Result<(Vec<()>, usize), Error> = codec.decode(&[0x01], 0);
    assert_eq!(r, Err(Error::Length { obtained: 0, expected: 1 }));
}
