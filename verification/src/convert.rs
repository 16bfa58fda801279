//! Width-checked integer conversion codecs.
//!
//! [`TryAsU32`] stores a platform-sized value through a 32-bit unsigned
//! field, [`TryAsI32`] through a 32-bit signed field. Both directions of the
//! conversion are fallible and fail with an overflow error — never a silent
//! truncation — when the value does not fit. Their chief use is the length
//! field of a length-prefixed sequence, decoupling the field's on-disk width
//! from the platform's native size type.

use vstd::prelude::*;

use crate::codec::Codec;
use crate::error::Error;

verus! {

/// A type that converts to and from a `u32`, failing on overflow.
pub trait TryAsU32able: DeepView<V = Self> + Copy + Sized {
    /// The value a stored `u32` converts to, or the overflow error.
    spec fn spec_from_u32(repr: u32) -> Result<Self, Error>;

    /// The `u32` a value converts to, or the overflow error.
    spec fn spec_to_u32(&self) -> Result<u32, Error>;

    /// Such a value is its own deep view.
    proof fn lemma_view_id(&self)
        ensures
            self.deep_view() == *self,
    ;

    /// The two directions invert each other wherever either succeeds.
    proof fn lemma_round(repr: u32, v: Self)
        ensures
            Self::spec_from_u32(repr) == Ok::<Self, Error>(v) ==> v.spec_to_u32() == Ok::<
                u32,
                Error,
            >(repr),
            v.spec_to_u32() == Ok::<u32, Error>(repr) ==> Self::spec_from_u32(repr) == Ok::<
                Self,
                Error,
            >(v),
    ;

    /// Convert a decoded `u32` into the value.
    fn from(repr: u32) -> (v: Result<Self, Error>)
        ensures
            v == Self::spec_from_u32(repr),
    ;

    /// Convert the value into a `u32` for encoding.
    fn to(&self) -> (r: Result<u32, Error>)
        ensures
            r == self.spec_to_u32(),
    ;
}

impl TryAsU32able for usize {
    open spec fn spec_from_u32(repr: u32) -> Result<Self, Error> {
        Ok(repr as usize)
    }

    open spec fn spec_to_u32(&self) -> Result<u32, Error> {
        if *self <= u32::MAX as usize {
            Ok(*self as u32)
        } else {
            Err(Error::Overflow)
        }
    }

    proof fn lemma_view_id(&self) {
    }

    proof fn lemma_round(repr: u32, v: Self) {
    }

    fn from(repr: u32) -> Result<Self, Error> {
        Ok(repr as usize)
    }

    fn to(&self) -> Result<u32, Error> {
        if *self <= u32::MAX as usize {
            Ok(*self as u32)
        } else {
            Err(Error::Overflow)
        }
    }
}

/// Fallible `u32` storage: the nested codec carries the 32-bit field.
/// (Usage: `TryAsU32(u32_codec)`.)
#[derive(Debug, Clone, Copy)]
pub struct TryAsU32<U32Codec>(pub U32Codec);

impl<T: TryAsU32able, C: Codec<u32>> Codec<T> for TryAsU32<C> {
    open spec fn wf(&self) -> bool {
        self.0.wf()
    }

    open spec fn delimited(&self) -> bool {
        self.0.delimited()
    }

    open spec fn round_trip_inv(&self) -> bool {
        self.0.round_trip_inv()
    }

    open spec fn spec_decode(&self, s: Seq<u8>) -> Result<(T, nat), Error> {
        match self.0.spec_decode(s) {
            Err(e) => Err(e),
            Ok((repr, k)) => match T::spec_from_u32(repr) {
                Err(e) => Err(e),
                Ok(v) => Ok((v, k)),
            },
        }
    }

    open spec fn spec_encode(&self, v: T) -> Result<Seq<u8>, Error> {
        match v.spec_to_u32() {
            Err(e) => Err(e),
            Ok(repr) => self.0.spec_encode(repr),
        }
    }

    fn decode(&self, input: &[u8], pos: usize) -> (r: Result<(T, usize), Error>) {
        match self.0.decode(input, pos) {
            Err(e) => Err(e),
            Ok((repr, end)) => match T::from(repr) {
                Err(e) => Err(e),
                Ok(v) => {
                    proof {
                        v.lemma_view_id();
                    }
                    Ok((v, end))
                },
            },
        }
    }

    fn encode(&self, value: &T, out: &mut Vec<u8>) -> (r: Result<(), Error>) {
        proof {
            value.lemma_view_id();
        }
        match value.to() {
            Err(e) => Err(e),
            Ok(repr) => self.0.encode(&repr, out),
        }
    }

    proof fn lemma_decode_len(&self, s: Seq<u8>) {
        self.0.lemma_decode_len(s);
    }

    proof fn lemma_decode_encode(&self, v: T, rest: Seq<u8>) {
        let repr = v.spec_to_u32()->Ok_0;
        T::lemma_round(repr, v);
        self.0.lemma_decode_encode(repr, rest);
    }

    proof fn lemma_encode_decode(&self, s: Seq<u8>) {
        self.0.lemma_encode_decode(s);
        match self.0.spec_decode(s) {
            Ok((repr, k)) => {
                match T::spec_from_u32(repr) {
                    Ok(v) => {
                        T::lemma_round(repr, v);
                    },
                    Err(_) => {},
                }
            },
            Err(_) => {},
        }
    }
}

/// A type that converts to and from an `i32`, failing on overflow.
pub trait TryAsI32able: DeepView<V = Self> + Copy + Sized {
    /// The value a stored `i32` converts to, or the overflow error.
    spec fn spec_from_i32(repr: i32) -> Result<Self, Error>;

    /// The `i32` a value converts to, or the overflow error.
    spec fn spec_to_i32(&self) -> Result<i32, Error>;

    /// Such a value is its own deep view.
    proof fn lemma_view_id(&self)
        ensures
            self.deep_view() == *self,
    ;

    /// The two directions invert each other wherever either succeeds.
    proof fn lemma_round(repr: i32, v: Self)
        ensures
            Self::spec_from_i32(repr) == Ok::<Self, Error>(v) ==> v.spec_to_i32() == Ok::<
                i32,
                Error,
            >(repr),
            v.spec_to_i32() == Ok::<i32, Error>(repr) ==> Self::spec_from_i32(repr) == Ok::<
                Self,
                Error,
            >(v),
    ;

    /// Convert a decoded `i32` into the value.
    fn from(repr: i32) -> (v: Result<Self, Error>)
        ensures
            v == Self::spec_from_i32(repr),
    ;

    /// Convert the value into an `i32` for encoding.
    fn to(&self) -> (r: Result<i32, Error>)
        ensures
            r == self.spec_to_i32(),
    ;
}

impl TryAsI32able for usize {
    open spec fn spec_from_i32(repr: i32) -> Result<Self, Error> {
        if repr < 0 {
            Err(Error::Overflow)
        } else {
            Ok(repr as usize)
        }
    }

    open spec fn spec_to_i32(&self) -> Result<i32, Error> {
        if *self <= i32::MAX as usize {
            Ok(*self as i32)
        } else {
            Err(Error::Overflow)
        }
    }

    proof fn lemma_view_id(&self) {
    }

    proof fn lemma_round(repr: i32, v: Self) {
    }

    fn from(repr: i32) -> Result<Self, Error> {
        if repr < 0 {
            Err(Error::Overflow)
        } else {
            Ok(repr as usize)
        }
    }

    fn to(&self) -> Result<i32, Error> {
        if *self <= i32::MAX as usize {
            Ok(*self as i32)
        } else {
            Err(Error::Overflow)
        }
    }
}

/// Fallible `i32` storage: the nested codec carries the 32-bit field.
/// (Usage: `TryAsI32(i32_codec)`.)
#[derive(Debug, Clone, Copy)]
pub struct TryAsI32<I32Codec>(pub I32Codec);

impl<T: TryAsI32able, C: Codec<i32>> Codec<T> for TryAsI32<C> {
    open spec fn wf(&self) -> bool {
        self.0.wf()
    }

    open spec fn delimited(&self) -> bool {
        self.0.delimited()
    }

    open spec fn round_trip_inv(&self) -> bool {
        self.0.round_trip_inv()
    }

    open spec fn spec_decode(&self, s: Seq<u8>) -> Result<(T, nat), Error> {
        match self.0.spec_decode(s) {
            Err(e) => Err(e),
            Ok((repr, k)) => match T::spec_from_i32(repr) {
                Err(e) => Err(e),
                Ok(v) => Ok((v, k)),
            },
        }
    }

    open spec fn spec_encode(&self, v: T) -> Result<Seq<u8>, Error> {
        match v.spec_to_i32() {
            Err(e) => Err(e),
            Ok(repr) => self.0.spec_encode(repr),
        }
    }

    fn decode(&self, input: &[u8], pos: usize) -> (r: Result<(T, usize), Error>) {
        match self.0.decode(input, pos) {
            Err(e) => Err(e),
            Ok((repr, end)) => match T::from(repr) {
                Err(e) => Err(e),
                Ok(v) => {
                    proof {
                        v.lemma_view_id();
                    }
                    Ok((v, end))
                },
            },
        }
    }

    fn encode(&self, value: &T, out: &mut Vec<u8>) -> (r: Result<(), Error>) {
        proof {
            value.lemma_view_id();
        }
        match value.to() {
            Err(e) => Err(e),
            Ok(repr) => self.0.encode(&repr, out),
        }
    }

    proof fn lemma_decode_len(&self, s: Seq<u8>) {
        self.0.lemma_decode_len(s);
    }

    proof fn lemma_decode_encode(&self, v: T, rest: Seq<u8>) {
        let repr = v.spec_to_i32()->Ok_0;
        T::lemma_round(repr, v);
        self.0.lemma_decode_encode(repr, rest);
    }

    proof fn lemma_encode_decode(&self, s: Seq<u8>) {
        self.0.lemma_encode_decode(s);
        match self.0.spec_decode(s) {
            Ok((repr, k)) => {
                match T::spec_from_i32(repr) {
                    Ok(v) => {
                        T::lemma_round(repr, v);
                    },
                    Err(_) => {},
                }
            },
            Err(_) => {},
        }
    }
}

} // verus!
