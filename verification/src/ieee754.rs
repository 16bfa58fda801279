//! Bit-pattern storage through a nested integer codec.
//!
//! [`IEEE754`] stores a value as its fixed-width bit representation and
//! delegates the byte layout entirely to whichever integer codec it is given,
//! so byte order is controlled by substitution. Every bit pattern is accepted
//! on decode; nothing is validated or normalised.
//!
//! The value types live behind [`IEEE754able`], which maps a value to and
//! from its bits. The verified core provides the unsigned identities and the
//! signed two's-complement mappings; floating-point bindings (whose `to_bits`
//! and `from_bits` are the same kind of exact bit reinterpretation) live with
//! the embedding application, since floating-point types cannot appear here.

use vstd::prelude::*;

use crate::codec::Codec;
use crate::error::Error;

verus! {

/// A type with a fixed-width binary representation: a value maps to its bit
/// pattern and back without loss, in both orders.
pub trait IEEE754able: DeepView<V = Self> + Copy + Sized {
    /// The unsigned integer type holding the bit pattern.
    type Repr: DeepView<V = Self::Repr> + Copy;

    /// The value's bit pattern.
    spec fn spec_to_bits(&self) -> Self::Repr;

    /// The value a bit pattern denotes.
    spec fn spec_from_bits(repr: Self::Repr) -> Self;

    /// Such a value is its own deep view.
    proof fn lemma_view_id(&self)
        ensures
            self.deep_view() == *self,
    ;

    /// A bit pattern is its own deep view.
    proof fn lemma_repr_view_id(repr: Self::Repr)
        ensures
            repr.deep_view() == repr,
    ;

    /// Reading bits and taking them again is the identity on bit patterns.
    proof fn lemma_bits_round(repr: Self::Repr)
        ensures
            Self::spec_from_bits(repr).spec_to_bits() == repr,
    ;

    /// Taking a value's bits and reading them back is the identity on values.
    proof fn lemma_value_round(&self)
        ensures
            Self::spec_from_bits(self.spec_to_bits()) == *self,
    ;

    /// Reinterpret a bit pattern as a value.
    fn from(repr: Self::Repr) -> (v: Self)
        ensures
            v == Self::spec_from_bits(repr),
    ;

    /// Extract the value's bit pattern.
    fn to(&self) -> (repr: Self::Repr)
        ensures
            repr == self.spec_to_bits(),
    ;
}

impl IEEE754able for u32 {
    type Repr = u32;

    open spec fn spec_to_bits(&self) -> u32 {
        *self
    }

    open spec fn spec_from_bits(repr: u32) -> Self {
        repr
    }

    proof fn lemma_view_id(&self) {
    }

    proof fn lemma_repr_view_id(repr: u32) {
    }

    proof fn lemma_bits_round(repr: u32) {
    }

    proof fn lemma_value_round(&self) {
    }

    fn from(repr: u32) -> Self {
        repr
    }

    fn to(&self) -> u32 {
        *self
    }
}

impl IEEE754able for u64 {
    type Repr = u64;

    open spec fn spec_to_bits(&self) -> u64 {
        *self
    }

    open spec fn spec_from_bits(repr: u64) -> Self {
        repr
    }

    proof fn lemma_view_id(&self) {
    }

    proof fn lemma_repr_view_id(repr: u64) {
    }

    proof fn lemma_bits_round(repr: u64) {
    }

    proof fn lemma_value_round(&self) {
    }

    fn from(repr: u64) -> Self {
        repr
    }

    fn to(&self) -> u64 {
        *self
    }
}

impl IEEE754able for i32 {
    type Repr = u32;

    open spec fn spec_to_bits(&self) -> u32 {
        *self as u32
    }

    open spec fn spec_from_bits(repr: u32) -> Self {
        repr as i32
    }

    proof fn lemma_view_id(&self) {
    }

    proof fn lemma_repr_view_id(repr: u32) {
    }

    proof fn lemma_bits_round(repr: u32) {
        assert(((repr as i32) as u32) == repr) by (bit_vector);
    }

    proof fn lemma_value_round(&self) {
        let x = *self;
        assert(((x as u32) as i32) == x) by (bit_vector);
    }

    fn from(repr: u32) -> Self {
        #[verifier::truncate] (repr as i32)
    }

    fn to(&self) -> u32 {
        #[verifier::truncate] (*self as u32)
    }
}

impl IEEE754able for i64 {
    type Repr = u64;

    open spec fn spec_to_bits(&self) -> u64 {
        *self as u64
    }

    open spec fn spec_from_bits(repr: u64) -> Self {
        repr as i64
    }

    proof fn lemma_view_id(&self) {
    }

    proof fn lemma_repr_view_id(repr: u64) {
    }

    proof fn lemma_bits_round(repr: u64) {
        assert(((repr as i64) as u64) == repr) by (bit_vector);
    }

    proof fn lemma_value_round(&self) {
        let x = *self;
        assert(((x as u64) as i64) == x) by (bit_vector);
    }

    fn from(repr: u64) -> Self {
        #[verifier::truncate] (repr as i64)
    }

    fn to(&self) -> u64 {
        #[verifier::truncate] (*self as u64)
    }
}

/// Bit-pattern storage for values with a fixed-width representation.
/// (Usage: `IEEE754(repr_codec)`, e.g. a little-endian 4-byte integer codec
/// for a 32-bit value.)
#[derive(Debug, Clone, Copy)]
pub struct IEEE754<ReprCodec>(pub ReprCodec);

impl<T: IEEE754able, C: Codec<T::Repr>> Codec<T> for IEEE754<C> {
    open spec fn wf(&self) -> bool {
        self.0.wf()
    }

    open spec fn delimited(&self) -> bool {
        self.0.delimited()
    }

    open spec fn round_trip_inv(&self) -> bool {
        self.0.round_trip_inv()
    }

    open spec fn spec_decode(&self, s: Seq<u8>) -> Result<(T, nat), Error> {
        match self.0.spec_decode(s) {
            Err(e) => Err(e),
            Ok((repr, k)) => Ok((T::spec_from_bits(repr), k)),
        }
    }

    open spec fn spec_encode(&self, v: T) -> Result<Seq<u8>, Error> {
        self.0.spec_encode(v.spec_to_bits())
    }

    fn decode(&self, input: &[u8], pos: usize) -> (r: Result<(T, usize), Error>) {
        match self.0.decode(input, pos) {
            Err(e) => Err(e),
            Ok((repr, end)) => {
                proof {
                    T::lemma_repr_view_id(repr);
                }
                let v = T::from(repr);
                proof {
                    v.lemma_view_id();
                }
                Ok((v, end))
            },
        }
    }

    fn encode(&self, value: &T, out: &mut Vec<u8>) -> (r: Result<(), Error>) {
        proof {
            value.lemma_view_id();
        }
        let repr = value.to();
        proof {
            T::lemma_repr_view_id(repr);
        }
        self.0.encode(&repr, out)
    }

    proof fn lemma_decode_len(&self, s: Seq<u8>) {
        self.0.lemma_decode_len(s);
    }

    proof fn lemma_decode_encode(&self, v: T, rest: Seq<u8>) {
        self.0.lemma_decode_encode(v.spec_to_bits(), rest);
        v.lemma_value_round();
    }

    proof fn lemma_encode_decode(&self, s: Seq<u8>) {
        self.0.lemma_encode_decode(s);
        match self.0.spec_decode(s) {
            Ok((repr, k)) => {
                T::lemma_bits_round(repr);
            },
            Err(_) => {},
        }
    }
}

} // verus!
