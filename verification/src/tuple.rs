//! Fixed-count containers.
//!
//! [`Tuple`] encodes and decodes a container of a fixed arity chosen when the
//! codec is built; [`TupleN`] does the same with a count supplied at
//! composition time (typically a just-decoded length field). Both read
//! exactly their count of items, report a count mismatch when the input runs
//! out mid-sequence, and refuse — before writing a single byte — to encode a
//! container whose length disagrees with the count.

use vstd::prelude::*;

use crate::codec::Codec;
use crate::error::Error;
use crate::items::decode_counted_items;
use crate::items::encode_counted_items;
use crate::items::lemma_decode_n_encode;
use crate::items::lemma_decode_n_exact;
use crate::items::lemma_decode_n_len;
use crate::items::spec_decode_counted;
use crate::items::spec_encode_counted;

verus! {

/// A fixed-arity homogeneous sequence: `arity` items, each through `item`.
/// (Usage: `Tuple(item_codec, arity)`.)
#[derive(Debug, Clone, Copy)]
pub struct Tuple<ItemCodec>(pub ItemCodec, pub usize);

impl<T: DeepView, C: Codec<T>> Codec<Vec<T>> for Tuple<C> {
    open spec fn wf(&self) -> bool {
        self.0.wf()
    }

    open spec fn delimited(&self) -> bool {
        self.0.delimited()
    }

    open spec fn round_trip_inv(&self) -> bool {
        self.0.round_trip_inv() && self.0.delimited()
    }

    open spec fn spec_decode(&self, s: Seq<u8>) -> Result<(Seq<T::V>, nat), Error> {
        spec_decode_counted(&self.0, s, self.1)
    }

    open spec fn spec_encode(&self, vs: Seq<T::V>) -> Result<Seq<u8>, Error> {
        spec_encode_counted(&self.0, vs, self.1)
    }

    fn decode(&self, input: &[u8], pos: usize) -> (r: Result<(Vec<T>, usize), Error>) {
        decode_counted_items(&self.0, input, pos, self.1)
    }

    fn encode(&self, values: &Vec<T>, out: &mut Vec<u8>) -> (r: Result<(), Error>) {
        encode_counted_items(&self.0, values, self.1, out)
    }

    proof fn lemma_decode_len(&self, s: Seq<u8>) {
        lemma_decode_n_len(&self.0, s, self.1 as nat);
    }

    proof fn lemma_decode_encode(&self, vs: Seq<T::V>, rest: Seq<u8>) {
        lemma_decode_n_encode(&self.0, vs, rest);
    }

    proof fn lemma_encode_decode(&self, s: Seq<u8>) {
        lemma_decode_n_len(&self.0, s, self.1 as nat);
        lemma_decode_n_exact(&self.0, s, self.1 as nat);
    }
}

/// A counted homogeneous sequence: like [`Tuple`], with the expected count a
/// composition-time value rather than part of the codec's fixed shape.
/// (Usage: `TupleN(count, item_codec)`.)
#[derive(Debug, Clone, Copy)]
pub struct TupleN<ItemCodec>(pub usize, pub ItemCodec);

impl<T: DeepView, C: Codec<T>> Codec<Vec<T>> for TupleN<C> {
    open spec fn wf(&self) -> bool {
        self.1.wf()
    }

    open spec fn delimited(&self) -> bool {
        self.1.delimited()
    }

    open spec fn round_trip_inv(&self) -> bool {
        self.1.round_trip_inv() && self.1.delimited()
    }

    open spec fn spec_decode(&self, s: Seq<u8>) -> Result<(Seq<T::V>, nat), Error> {
        spec_decode_counted(&self.1, s, self.0)
    }

    open spec fn spec_encode(&self, vs: Seq<T::V>) -> Result<Seq<u8>, Error> {
        spec_encode_counted(&self.1, vs, self.0)
    }

    fn decode(&self, input: &[u8], pos: usize) -> (r: Result<(Vec<T>, usize), Error>) {
        decode_counted_items(&self.1, input, pos, self.0)
    }

    fn encode(&self, values: &Vec<T>, out: &mut Vec<u8>) -> (r: Result<(), Error>) {
        encode_counted_items(&self.1, values, self.0, out)
    }

    proof fn lemma_decode_len(&self, s: Seq<u8>) {
        lemma_decode_n_len(&self.1, s, self.0 as nat);
    }

    proof fn lemma_decode_encode(&self, vs: Seq<T::V>, rest: Seq<u8>) {
        lemma_decode_n_encode(&self.1, vs, rest);
    }

    proof fn lemma_encode_decode(&self, s: Seq<u8>) {
        lemma_decode_n_len(&self.1, s, self.0 as nat);
        lemma_decode_n_exact(&self.1, s, self.0 as nat);
    }
}

} // verus!
