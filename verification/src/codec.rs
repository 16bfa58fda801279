//! The codec contract: the one abstraction every combinator implements.
//!
//! A codec pairs two directions over a byte stream:
//!
//! - decode: read a value of type `T` out of a byte slice, starting at a
//!   position, and report the position after the value;
//! - encode: append the bytes of a borrowed value of type `T` to an output
//!   buffer.
//!
//! Both directions are pinned down by two specification functions,
//! [`Codec::spec_decode`] and [`Codec::spec_encode`], which give the exact
//! result — value, bytes consumed, bytes produced, or the precise error — for
//! every input. On top of those, every implementation owes proofs of the
//! round-trip laws: decoding an encoding yields the value back
//! ([`Codec::lemma_decode_encode`]), and re-encoding a decoded value
//! reproduces exactly the consumed bytes ([`Codec::lemma_encode_decode`]).

use core::marker::PhantomData;

use vstd::prelude::*;

use crate::error::Error;

verus! {

/// A decode step: a borrowed codec configuration, ready to be driven against
/// an input cursor. Producing one never consumes the codec, so the same
/// configuration can seed any number of decode calls (each element of a
/// sequence, for instance).
pub struct Seed<'c, C, T> {
    /// The borrowed configuration.
    pub codec: &'c C,
    /// The value type the step will produce.
    pub marker: PhantomData<T>,
}

impl<'c, T: DeepView, C: Codec<T>> Seed<'c, C, T> {
    /// Run the decode step: same contract as [`Codec::decode`].
    pub fn decode(&self, input: &[u8], pos: usize) -> (r: Result<(T, usize), Error>)
        requires
            self.codec.wf(),
            pos <= input@.len(),
        ensures
            match r {
                Ok((v, end)) => {
                    &&& pos <= end <= input@.len()
                    &&& self.codec.spec_decode(input@.skip(pos as int)) == Ok::<_, Error>(
                        (v.deep_view(), (end - pos) as nat),
                    )
                },
                Err(e) => self.codec.spec_decode(input@.skip(pos as int)) == Err::<
                    (T::V, nat),
                    _,
                >(e),
            },
    {
        self.codec.decode(input, pos)
    }
}

/// An encode view: the short-lived, borrowed pairing of a codec configuration
/// and the value to write. It exists only to be handed to the output writer
/// within the call that produced it.
pub struct EncodeView<'v, C, T> {
    /// The borrowed configuration.
    pub codec: &'v C,
    /// The borrowed value to be written.
    pub value: &'v T,
}

impl<'v, T: DeepView, C: Codec<T>> EncodeView<'v, C, T> {
    /// Write the view out: same contract as [`Codec::encode`].
    pub fn encode(&self, out: &mut Vec<u8>) -> (r: Result<(), Error>)
        requires
            self.codec.wf(),
        ensures
            match r {
                Ok(()) => {
                    &&& self.codec.spec_encode(self.value.deep_view()) is Ok
                    &&& final(out)@ == old(out)@ + self.codec.spec_encode(
                        self.value.deep_view(),
                    )->Ok_0
                },
                Err(e) => {
                    &&& self.codec.spec_encode(self.value.deep_view()) == Err::<Seq<u8>, _>(e)
                    &&& final(out)@ == old(out)@
                },
            },
    {
        self.codec.encode(self.value, out)
    }
}

/// A binary codec for values of type `T`.
///
/// Codec configurations are immutable values: composing codecs is pure value
/// composition, constructing one performs no work, and the same configuration
/// may drive any number of decode and encode calls.
///
/// The specification speaks about `T::V`, the mathematical view of `T`
/// (`Seq<u16>` for `Vec<u16>`, `Seq<char>` for `String`, the value itself for
/// integers), so that laws compare abstract contents rather than heap objects.
pub trait Codec<T: DeepView>: Sized {
    /// The configuration is well formed (e.g. nested codecs are well formed).
    /// Decode and encode may only be called on well-formed configurations.
    spec fn wf(&self) -> bool;

    /// A delimited codec determines, from the bytes it accepts, where the
    /// value ends: decoding ignores whatever follows the consumed prefix.
    /// Codecs that swallow the whole remaining input (a raw buffer, an
    /// unbounded sequence) are not delimited and can only stand last in a
    /// composition.
    spec fn delimited(&self) -> bool;

    /// Extra hypotheses under which the round-trip laws hold.
    ///
    /// For every codec built from this crate's own logic this is `true` (or
    /// delegates to the item codecs). The text codec additionally assumes
    /// that the external character table maps distinct bytes to distinct
    /// characters — a property of the outside table that each trusted
    /// per-symbol contract states pointwise but that cannot be summoned
    /// ambiently inside a proof.
    open spec fn round_trip_inv(&self) -> bool {
        true
    }

    /// What decode returns on any byte sequence: the view of the decoded
    /// value and the number of bytes consumed, or the exact error.
    spec fn spec_decode(&self, s: Seq<u8>) -> Result<(T::V, nat), Error>;

    /// What encode produces for any value in the codec's domain: the exact
    /// byte sequence, or the exact error (in which case nothing is written).
    spec fn spec_encode(&self, v: T::V) -> Result<Seq<u8>, Error>;

    /// Read one `T` from `input` starting at `pos`; on success return the
    /// value and the position just past it.
    fn decode(&self, input: &[u8], pos: usize) -> (r: Result<(T, usize), Error>)
        requires
            self.wf(),
            pos <= input@.len(),
        ensures
            match r {
                Ok((v, end)) => {
                    &&& pos <= end <= input@.len()
                    &&& self.spec_decode(input@.skip(pos as int)) == Ok::<_, Error>(
                        (v.deep_view(), (end - pos) as nat),
                    )
                },
                Err(e) => self.spec_decode(input@.skip(pos as int)) == Err::<(T::V, nat), _>(e),
            },
    ;

    /// Append the encoding of `value` to `out`; on failure `out` is left
    /// exactly as it was (nothing half-written).
    fn encode(&self, value: &T, out: &mut Vec<u8>) -> (r: Result<(), Error>)
        requires
            self.wf(),
        ensures
            match r {
                Ok(()) => {
                    &&& self.spec_encode(value.deep_view()) is Ok
                    &&& final(out)@ == old(out)@ + self.spec_encode(value.deep_view())->Ok_0
                },
                Err(e) => {
                    &&& self.spec_encode(value.deep_view()) == Err::<Seq<u8>, _>(e)
                    &&& final(out)@ == old(out)@
                },
            },
    ;

    /// Prepare a reusable decode step over this configuration.
    fn seed(&self) -> (step: Seed<'_, Self, T>)
        ensures
            step.codec == self,
    {
        Seed { codec: self, marker: PhantomData }
    }

    /// Pair this configuration with a borrowed value, ready to be written.
    fn seeded<'s>(&'s self, value: &'s T) -> (view: EncodeView<'s, Self, T>)
        ensures
            view.codec == self,
            view.value == value,
    {
        EncodeView { codec: self, value }
    }

    /// A successful decode never claims to consume more bytes than exist.
    proof fn lemma_decode_len(&self, s: Seq<u8>)
        requires
            self.wf(),
        ensures
            self.spec_decode(s) matches Ok((v, n)) ==> n <= s.len(),
    ;

    /// Round-trip law, decode after encode: decoding an encoded value — with
    /// arbitrary trailing bytes if the codec is delimited — yields the value
    /// back and consumes exactly its encoding.
    proof fn lemma_decode_encode(&self, v: T::V, rest: Seq<u8>)
        requires
            self.wf(),
            self.round_trip_inv(),
            self.spec_encode(v) is Ok,
            self.delimited() || rest.len() == 0,
        ensures
            self.spec_decode(self.spec_encode(v)->Ok_0 + rest) == Ok::<_, Error>(
                (v, self.spec_encode(v)->Ok_0.len()),
            ),
    ;

    /// Round-trip law, encode after decode: any successfully decoded value
    /// re-encodes to exactly the bytes that were consumed.
    proof fn lemma_encode_decode(&self, s: Seq<u8>)
        requires
            self.wf(),
            self.round_trip_inv(),
        ensures
            self.spec_decode(s) matches Ok((v, n)) ==> self.spec_encode(v) == Ok::<_, Error>(
                s.take(n as int),
            ),
    ;
}

} // verus!
