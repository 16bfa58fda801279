//! An unbounded homogeneous sequence.
//!
//! Decoding reads items until the input is exhausted; encoding writes every
//! element the container holds, with no count field of its own (callers who
//! need framing compose with the length-prefixed codec). Because it consumes
//! whatever remains, this codec is not delimited and can only stand last in
//! a composition.

use vstd::prelude::*;

use crate::codec::Codec;
use crate::error::Error;
use crate::items::decode_all_items;
use crate::items::encode_items;
use crate::items::items_progress;
use crate::items::lemma_decode_all_encode;
use crate::items::lemma_decode_all_exact;
use crate::items::lemma_decode_all_len;
use crate::items::spec_decode_all;
use crate::items::spec_encode_items;

verus! {

/// A sequence of items that runs to the end of the input.
/// (Usage: `Sequence(item_codec)`.)
#[derive(Debug, Clone, Copy)]
pub struct Sequence<ItemCodec>(pub ItemCodec);

impl<T: DeepView, C: Codec<T>> Codec<Vec<T>> for Sequence<C> {
    open spec fn wf(&self) -> bool {
        self.0.wf()
    }

    open spec fn delimited(&self) -> bool {
        false
    }

    open spec fn round_trip_inv(&self) -> bool {
        self.0.round_trip_inv() && self.0.delimited() && items_progress(&self.0)
    }

    open spec fn spec_decode(&self, s: Seq<u8>) -> Result<(Seq<T::V>, nat), Error> {
        spec_decode_all(&self.0, s)
    }

    open spec fn spec_encode(&self, vs: Seq<T::V>) -> Result<Seq<u8>, Error> {
        spec_encode_items(&self.0, vs)
    }

    fn decode(&self, input: &[u8], pos: usize) -> (r: Result<(Vec<T>, usize), Error>) {
        decode_all_items(&self.0, input, pos)
    }

    fn encode(&self, values: &Vec<T>, out: &mut Vec<u8>) -> (r: Result<(), Error>) {
        encode_items(&self.0, values, out)
    }

    proof fn lemma_decode_len(&self, s: Seq<u8>) {
        lemma_decode_all_len(&self.0, s);
    }

    proof fn lemma_decode_encode(&self, vs: Seq<T::V>, rest: Seq<u8>) {
        lemma_decode_all_encode(&self.0, vs);
        assert(spec_encode_items(&self.0, vs)->Ok_0 + rest =~= spec_encode_items(&self.0, vs)->Ok_0);
    }

    proof fn lemma_encode_decode(&self, s: Seq<u8>) {
        lemma_decode_all_exact(&self.0, s);
    }
}

} // verus!
