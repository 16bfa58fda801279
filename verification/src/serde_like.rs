//! The passthrough codec: delegate to a value's own serialization.
//!
//! Some types already know their own byte layout. [`NativeCodec`] is that
//! knowledge — the same contract as [`Codec`], carried by the value type
//! itself rather than by a configuration value — and [`SerdeLike`] is the
//! zero-overhead adapter that lets such a type stand anywhere a codec is
//! expected, with no extra framing and no interpretation. A raw byte carries
//! its own layout; richer self-describing types may implement
//! [`NativeCodec`] in the embedding application.

use vstd::prelude::*;

use crate::codec::Codec;
use crate::error::Error;

verus! {

/// A type with a native byte layout of its own, under the same contract and
/// the same round-trip obligations as [`Codec`].
pub trait NativeCodec: DeepView + Sized {
    /// What decoding yields on any byte sequence.
    spec fn spec_native_decode(s: Seq<u8>) -> Result<(Self::V, nat), Error>;

    /// What encoding a value produces.
    spec fn spec_native_encode(v: Self::V) -> Result<Seq<u8>, Error>;

    /// Whether the native layout is delimited (see [`Codec::delimited`]).
    spec fn spec_native_delimited() -> bool;

    /// Read one value from `input` at `pos`.
    fn native_decode(input: &[u8], pos: usize) -> (r: Result<(Self, usize), Error>)
        requires
            pos <= input@.len(),
        ensures
            match r {
                Ok((v, end)) => {
                    &&& pos <= end <= input@.len()
                    &&& Self::spec_native_decode(input@.skip(pos as int)) == Ok::<_, Error>(
                        (v.deep_view(), (end - pos) as nat),
                    )
                },
                Err(e) => Self::spec_native_decode(input@.skip(pos as int)) == Err::<
                    (Self::V, nat),
                    _,
                >(e),
            },
    ;

    /// Append the value's encoding to `out`; on failure `out` is unchanged.
    fn native_encode(&self, out: &mut Vec<u8>) -> (r: Result<(), Error>)
        ensures
            match r {
                Ok(()) => {
                    &&& Self::spec_native_encode(self.deep_view()) is Ok
                    &&& final(out)@ == old(out)@ + Self::spec_native_encode(
                        self.deep_view(),
                    )->Ok_0
                },
                Err(e) => {
                    &&& Self::spec_native_encode(self.deep_view()) == Err::<Seq<u8>, _>(e)
                    &&& final(out)@ == old(out)@
                },
            },
    ;

    /// A successful decode stays within the input.
    proof fn lemma_native_decode_len(s: Seq<u8>)
        ensures
            Self::spec_native_decode(s) matches Ok((v, n)) ==> n <= s.len(),
    ;

    /// Round trip, decode after encode.
    proof fn lemma_native_decode_encode(v: Self::V, rest: Seq<u8>)
        requires
            Self::spec_native_encode(v) is Ok,
            Self::spec_native_delimited() || rest.len() == 0,
        ensures
            Self::spec_native_decode(Self::spec_native_encode(v)->Ok_0 + rest) == Ok::<_, Error>(
                (v, Self::spec_native_encode(v)->Ok_0.len()),
            ),
    ;

    /// Round trip, encode after decode.
    proof fn lemma_native_encode_decode(s: Seq<u8>)
        ensures
            Self::spec_native_decode(s) matches Ok((v, n)) ==> Self::spec_native_encode(v) == Ok::<
                _,
                Error,
            >(s.take(n as int)),
    ;
}

/// A raw byte is its own one-byte layout.
impl NativeCodec for u8 {
    open spec fn spec_native_decode(s: Seq<u8>) -> Result<(u8, nat), Error> {
        if s.len() >= 1 {
            Ok((s[0], 1))
        } else {
            Err(Error::Length { obtained: 0, expected: 1 })
        }
    }

    open spec fn spec_native_encode(v: u8) -> Result<Seq<u8>, Error> {
        Ok(seq![v])
    }

    open spec fn spec_native_delimited() -> bool {
        true
    }

    fn native_decode(input: &[u8], pos: usize) -> (r: Result<(u8, usize), Error>) {
        if pos < input.len() {
            Ok((input[pos], pos + 1))
        } else {
            Err(Error::Length { obtained: 0, expected: 1 })
        }
    }

    fn native_encode(&self, out: &mut Vec<u8>) -> (r: Result<(), Error>) {
        out.push(*self);
        assert(final(out)@ =~= old(out)@ + seq![*self]);
        Ok(())
    }

    proof fn lemma_native_decode_len(s: Seq<u8>) {
    }

    proof fn lemma_native_decode_encode(v: u8, rest: Seq<u8>) {
        assert((seq![v] + rest)[0] == v);
    }

    proof fn lemma_native_encode_decode(s: Seq<u8>) {
        if s.len() >= 1 {
            assert(s.take(1) =~= seq![s[0]]);
        }
    }
}

/// Delegates entirely to the value type's own native layout.
#[derive(Debug, Clone, Copy)]
pub struct SerdeLike;

impl<T: NativeCodec> Codec<T> for SerdeLike {
    open spec fn wf(&self) -> bool {
        true
    }

    open spec fn delimited(&self) -> bool {
        T::spec_native_delimited()
    }

    open spec fn spec_decode(&self, s: Seq<u8>) -> Result<(T::V, nat), Error> {
        T::spec_native_decode(s)
    }

    open spec fn spec_encode(&self, v: T::V) -> Result<Seq<u8>, Error> {
        T::spec_native_encode(v)
    }

    fn decode(&self, input: &[u8], pos: usize) -> (r: Result<(T, usize), Error>) {
        T::native_decode(input, pos)
    }

    fn encode(&self, value: &T, out: &mut Vec<u8>) -> (r: Result<(), Error>) {
        value.native_encode(out)
    }

    proof fn lemma_decode_len(&self, s: Seq<u8>) {
        T::lemma_native_decode_len(s);
    }

    proof fn lemma_decode_encode(&self, v: T::V, rest: Seq<u8>) {
        T::lemma_native_decode_encode(v, rest);
    }

    proof fn lemma_encode_decode(&self, s: Seq<u8>) {
        T::lemma_native_encode_decode(s);
    }
}

} // verus!
