//! Little-endian storage for fixed-width integers.
//!
//! [`LittleEndian`] is the codec; the integer types it can carry implement
//! [`ByteOrdered`], which fixes the width, the byte layout and the two
//! round-trip facts the codec's laws rest on. Signed types store their
//! standard two's-complement bit pattern through the unsigned type of the
//! same width.

use vstd::bytes::*;
use vstd::prelude::*;
use vstd::slice::slice_subrange;

use crate::codec::Codec;
use crate::error::Error;

verus! {

/// An integer type with a little-endian byte layout of fixed width.
pub trait ByteOrdered: DeepView<V = Self> + Copy + Sized {
    /// How many bytes a value occupies; fixed by the type.
    spec fn spec_width() -> nat;

    /// The value's bytes, least-significant first.
    spec fn spec_le_bytes(&self) -> Seq<u8>;

    /// The value assembled from little-endian bytes (meaningful when
    /// `s.len() == Self::spec_width()`).
    spec fn spec_from_le(s: Seq<u8>) -> Self;

    /// An integer is its own deep view.
    proof fn lemma_view_id(&self)
        ensures
            self.deep_view() == *self,
    ;

    /// The byte layout has exactly the declared width, which is positive.
    proof fn lemma_le_len(&self)
        ensures
            self.spec_le_bytes().len() == Self::spec_width(),
            Self::spec_width() >= 1,
    ;

    /// Reassembling a value's own bytes yields the value.
    proof fn lemma_le_round(&self)
        ensures
            Self::spec_from_le(self.spec_le_bytes()) == *self,
            self.spec_le_bytes().len() == Self::spec_width(),
    ;

    /// Re-laying-out an assembled value reproduces the exact bytes.
    proof fn lemma_from_le_round(s: Seq<u8>)
        requires
            s.len() == Self::spec_width(),
        ensures
            Self::spec_from_le(s).spec_le_bytes() == s,
    ;

    /// The width as a runtime value.
    fn width() -> (w: usize)
        ensures
            w as nat == Self::spec_width(),
            1 <= w <= 16,
    ;

    /// Read one value from `input` at `pos`.
    fn deserialize_le(input: &[u8], pos: usize) -> (v: Self)
        requires
            pos + Self::spec_width() <= input@.len(),
        ensures
            v == Self::spec_from_le(
                input@.subrange(pos as int, pos + Self::spec_width() as int),
            ),
    ;

    /// Append the value's bytes to `out`.
    fn serialize_le(&self, out: &mut Vec<u8>)
        ensures
            final(out)@ == old(out)@ + self.spec_le_bytes(),
    ;
}

impl ByteOrdered for u8 {
    open spec fn spec_width() -> nat {
        1
    }

    open spec fn spec_le_bytes(&self) -> Seq<u8> {
        seq![*self]
    }

    open spec fn spec_from_le(s: Seq<u8>) -> Self {
        s[0]
    }

    proof fn lemma_view_id(&self) {
    }

    proof fn lemma_le_len(&self) {
    }

    proof fn lemma_le_round(&self) {
    }

    proof fn lemma_from_le_round(s: Seq<u8>) {
        assert(Self::spec_from_le(s).spec_le_bytes() =~= s);
    }

    fn width() -> usize {
        1
    }

    fn deserialize_le(input: &[u8], pos: usize) -> Self {
        input[pos]
    }

    fn serialize_le(&self, out: &mut Vec<u8>) {
        out.push(*self);
        assert(final(out)@ =~= old(out)@ + self.spec_le_bytes());
    }
}

impl ByteOrdered for u16 {
    open spec fn spec_width() -> nat {
        2
    }

    open spec fn spec_le_bytes(&self) -> Seq<u8> {
        spec_u16_to_le_bytes(*self)
    }

    open spec fn spec_from_le(s: Seq<u8>) -> Self {
        spec_u16_from_le_bytes(s)
    }

    proof fn lemma_view_id(&self) {
    }

    proof fn lemma_le_len(&self) {
        lemma_auto_spec_u16_to_from_le_bytes();
        assert(spec_u16_to_le_bytes(*self).len() == 2);
    }

    proof fn lemma_le_round(&self) {
        lemma_auto_spec_u16_to_from_le_bytes();
        assert(spec_u16_to_le_bytes(*self).len() == 2);
    }

    proof fn lemma_from_le_round(s: Seq<u8>) {
        lemma_auto_spec_u16_to_from_le_bytes();
    }

    fn width() -> usize {
        2
    }

    fn deserialize_le(input: &[u8], pos: usize) -> Self {
        let len = input.len();
        assert(pos + 2 <= len);
        u16_from_le_bytes(slice_subrange(input, pos, pos + 2))
    }

    fn serialize_le(&self, out: &mut Vec<u8>) {
        let mut bytes = u16_to_le_bytes(*self);
        out.append(&mut bytes);
    }
}

impl ByteOrdered for u32 {
    open spec fn spec_width() -> nat {
        4
    }

    open spec fn spec_le_bytes(&self) -> Seq<u8> {
        spec_u32_to_le_bytes(*self)
    }

    open spec fn spec_from_le(s: Seq<u8>) -> Self {
        spec_u32_from_le_bytes(s)
    }

    proof fn lemma_view_id(&self) {
    }

    proof fn lemma_le_len(&self) {
        lemma_auto_spec_u32_to_from_le_bytes();
        assert(spec_u32_to_le_bytes(*self).len() == 4);
    }

    proof fn lemma_le_round(&self) {
        lemma_auto_spec_u32_to_from_le_bytes();
        assert(spec_u32_to_le_bytes(*self).len() == 4);
    }

    proof fn lemma_from_le_round(s: Seq<u8>) {
        lemma_auto_spec_u32_to_from_le_bytes();
    }

    fn width() -> usize {
        4
    }

    fn deserialize_le(input: &[u8], pos: usize) -> Self {
        let len = input.len();
        assert(pos + 4 <= len);
        u32_from_le_bytes(slice_subrange(input, pos, pos + 4))
    }

    fn serialize_le(&self, out: &mut Vec<u8>) {
        let mut bytes = u32_to_le_bytes(*self);
        out.append(&mut bytes);
    }
}

impl ByteOrdered for u64 {
    open spec fn spec_width() -> nat {
        8
    }

    open spec fn spec_le_bytes(&self) -> Seq<u8> {
        spec_u64_to_le_bytes(*self)
    }

    open spec fn spec_from_le(s: Seq<u8>) -> Self {
        spec_u64_from_le_bytes(s)
    }

    proof fn lemma_view_id(&self) {
    }

    proof fn lemma_le_len(&self) {
        lemma_auto_spec_u64_to_from_le_bytes();
        assert(spec_u64_to_le_bytes(*self).len() == 8);
    }

    proof fn lemma_le_round(&self) {
        lemma_auto_spec_u64_to_from_le_bytes();
        assert(spec_u64_to_le_bytes(*self).len() == 8);
    }

    proof fn lemma_from_le_round(s: Seq<u8>) {
        lemma_auto_spec_u64_to_from_le_bytes();
    }

    fn width() -> usize {
        8
    }

    fn deserialize_le(input: &[u8], pos: usize) -> Self {
        let len = input.len();
        assert(pos + 8 <= len);
        u64_from_le_bytes(slice_subrange(input, pos, pos + 8))
    }

    fn serialize_le(&self, out: &mut Vec<u8>) {
        let mut bytes = u64_to_le_bytes(*self);
        out.append(&mut bytes);
    }
}

impl ByteOrdered for i32 {
    open spec fn spec_width() -> nat {
        4
    }

    open spec fn spec_le_bytes(&self) -> Seq<u8> {
        spec_u32_to_le_bytes(*self as u32)
    }

    open spec fn spec_from_le(s: Seq<u8>) -> Self {
        spec_u32_from_le_bytes(s) as i32
    }

    proof fn lemma_view_id(&self) {
    }

    proof fn lemma_le_len(&self) {
        lemma_auto_spec_u32_to_from_le_bytes();
        assert(spec_u32_to_le_bytes(*self as u32).len() == 4);
    }

    proof fn lemma_le_round(&self) {
        lemma_auto_spec_u32_to_from_le_bytes();
        assert(spec_u32_to_le_bytes(*self as u32).len() == 4);
        let x = *self;
        assert(((x as u32) as i32) == x) by (bit_vector);
    }

    proof fn lemma_from_le_round(s: Seq<u8>) {
        lemma_auto_spec_u32_to_from_le_bytes();
        let u = spec_u32_from_le_bytes(s);
        assert(((u as i32) as u32) == u) by (bit_vector);
    }

    fn width() -> usize {
        4
    }

    fn deserialize_le(input: &[u8], pos: usize) -> Self {
        let len = input.len();
        assert(pos + 4 <= len);
        #[verifier::truncate] (u32_from_le_bytes(slice_subrange(input, pos, pos + 4)) as i32)
    }

    fn serialize_le(&self, out: &mut Vec<u8>) {
        let mut bytes = u32_to_le_bytes(#[verifier::truncate] (*self as u32));
        out.append(&mut bytes);
    }
}

impl ByteOrdered for i64 {
    open spec fn spec_width() -> nat {
        8
    }

    open spec fn spec_le_bytes(&self) -> Seq<u8> {
        spec_u64_to_le_bytes(*self as u64)
    }

    open spec fn spec_from_le(s: Seq<u8>) -> Self {
        spec_u64_from_le_bytes(s) as i64
    }

    proof fn lemma_view_id(&self) {
    }

    proof fn lemma_le_len(&self) {
        lemma_auto_spec_u64_to_from_le_bytes();
        assert(spec_u64_to_le_bytes(*self as u64).len() == 8);
    }

    proof fn lemma_le_round(&self) {
        lemma_auto_spec_u64_to_from_le_bytes();
        assert(spec_u64_to_le_bytes(*self as u64).len() == 8);
        let x = *self;
        assert(((x as u64) as i64) == x) by (bit_vector);
    }

    proof fn lemma_from_le_round(s: Seq<u8>) {
        lemma_auto_spec_u64_to_from_le_bytes();
        let u = spec_u64_from_le_bytes(s);
        assert(((u as i64) as u64) == u) by (bit_vector);
    }

    fn width() -> usize {
        8
    }

    fn deserialize_le(input: &[u8], pos: usize) -> Self {
        let len = input.len();
        assert(pos + 8 <= len);
        #[verifier::truncate] (u64_from_le_bytes(slice_subrange(input, pos, pos + 8)) as i64)
    }

    fn serialize_le(&self, out: &mut Vec<u8>) {
        let mut bytes = u64_to_le_bytes(#[verifier::truncate] (*self as u64));
        out.append(&mut bytes);
    }
}

/// Little-endian (least significant byte first) storage for integers.
///
/// Decoding reads exactly the type's width and fails with a length error when
/// fewer bytes remain; encoding writes exactly the width and cannot fail.
#[derive(Debug, Clone, Copy)]
pub struct LittleEndian;

impl<T: ByteOrdered> Codec<T> for LittleEndian {
    open spec fn wf(&self) -> bool {
        true
    }

    open spec fn delimited(&self) -> bool {
        true
    }

    open spec fn spec_decode(&self, s: Seq<u8>) -> Result<(T, nat), Error> {
        if s.len() >= T::spec_width() {
            Ok((T::spec_from_le(s.take(T::spec_width() as int)), T::spec_width()))
        } else {
            Err(Error::Length { obtained: s.len() as usize, expected: T::spec_width() as usize })
        }
    }

    open spec fn spec_encode(&self, v: T) -> Result<Seq<u8>, Error> {
        Ok(v.spec_le_bytes())
    }

    fn decode(&self, input: &[u8], pos: usize) -> (r: Result<(T, usize), Error>) {
        let w = T::width();
        let rem = input.len() - pos;
        if w <= rem {
            let v = T::deserialize_le(input, pos);
            proof {
                v.lemma_view_id();
                assert(input@.skip(pos as int).take(T::spec_width() as int) =~= input@.subrange(
                    pos as int,
                    pos + T::spec_width() as int,
                ));
            }
            Ok((v, pos + w))
        } else {
            Err(Error::Length { obtained: rem, expected: w })
        }
    }

    fn encode(&self, value: &T, out: &mut Vec<u8>) -> (r: Result<(), Error>) {
        proof {
            value.lemma_view_id();
        }
        value.serialize_le(out);
        Ok(())
    }

    proof fn lemma_decode_len(&self, s: Seq<u8>) {
    }

    proof fn lemma_decode_encode(&self, v: T, rest: Seq<u8>) {
        v.lemma_le_round();
        assert((v.spec_le_bytes() + rest).take(T::spec_width() as int) =~= v.spec_le_bytes());
    }

    proof fn lemma_encode_decode(&self, s: Seq<u8>) {
        if s.len() >= T::spec_width() {
            T::lemma_from_le_round(s.take(T::spec_width() as int));
        }
    }
}

} // verus!
