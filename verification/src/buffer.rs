//! Verbatim byte buffers.
//!
//! Decoding hands over everything that remains of the input; encoding writes
//! the buffer's contents as a single raw span, with no length prefix and no
//! per-byte framing. Callers wanting a prefix compose with the
//! length-prefixed codec. Because it consumes whatever remains, this codec is
//! not delimited and can only stand last in a composition.

use vstd::prelude::*;
use vstd::slice::slice_subrange;
use vstd::slice::slice_to_vec;

use crate::codec::Codec;
use crate::error::Error;

verus! {

/// Passes a byte buffer through unchanged.
#[derive(Debug, Clone, Copy)]
pub struct Buffer;

impl Codec<Vec<u8>> for Buffer {
    open spec fn wf(&self) -> bool {
        true
    }

    open spec fn delimited(&self) -> bool {
        false
    }

    open spec fn spec_decode(&self, s: Seq<u8>) -> Result<(Seq<u8>, nat), Error> {
        Ok((s, s.len()))
    }

    open spec fn spec_encode(&self, bs: Seq<u8>) -> Result<Seq<u8>, Error> {
        Ok(bs)
    }

    fn decode(&self, input: &[u8], pos: usize) -> (r: Result<(Vec<u8>, usize), Error>) {
        let len = input.len();
        let v = slice_to_vec(slice_subrange(input, pos, len));
        assert(v.deep_view() =~= input@.skip(pos as int));
        Ok((v, len))
    }

    fn encode(&self, value: &Vec<u8>, out: &mut Vec<u8>) -> (r: Result<(), Error>) {
        out.extend_from_slice(value.as_slice());
        assert(value.deep_view() =~= value@);
        Ok(())
    }

    proof fn lemma_decode_len(&self, s: Seq<u8>) {
    }

    proof fn lemma_decode_encode(&self, bs: Seq<u8>, rest: Seq<u8>) {
        assert(bs + rest =~= bs);
    }

    proof fn lemma_encode_decode(&self, s: Seq<u8>) {
        assert(s.take(s.len() as int) =~= s);
    }
}

} // verus!
