//! The canonical record shape: `[count][count × item]`.
//!
//! A composition of a length-field codec (any codec for `usize`, typically a
//! width-checked conversion over a byte-order integer codec) and a counted
//! item sequence. Decoding reads the count, then exactly that many items,
//! failing with an obtained-versus-expected count mismatch when the input
//! falls short. Encoding writes the container's own length through the length
//! codec — which fails, before anything is written, if the length does not
//! fit the field's width — and then every element in order.

use vstd::prelude::*;

use crate::byte_order::ByteOrdered;
use crate::byte_order::LittleEndian;
use crate::codec::Codec;
use crate::convert::TryAsU32;
use crate::error::Error;
use crate::items::decode_counted_items;
use crate::items::encode_items;
use crate::items::lemma_decode_n_encode;
use crate::items::lemma_decode_n_exact;
use crate::items::lemma_decode_n_len;
use crate::items::spec_decode_counted;
use crate::items::spec_decode_n;
use crate::items::spec_encode_items;

verus! {

/// A length-prefixed sequence of items.
/// (Usage: `LengthPrefixed(length_codec, item_codec)`.)
#[derive(Debug, Clone, Copy)]
pub struct LengthPrefixed<LengthCodec, ItemCodec>(pub LengthCodec, pub ItemCodec);

impl<T: DeepView, L: Codec<usize>, C: Codec<T>> Codec<Vec<T>> for LengthPrefixed<L, C> {
    open spec fn wf(&self) -> bool {
        self.0.wf() && self.1.wf()
    }

    open spec fn delimited(&self) -> bool {
        self.0.delimited() && self.1.delimited()
    }

    open spec fn round_trip_inv(&self) -> bool {
        &&& self.0.round_trip_inv()
        &&& self.0.delimited()
        &&& self.1.round_trip_inv()
        &&& self.1.delimited()
    }

    open spec fn spec_decode(&self, s: Seq<u8>) -> Result<(Seq<T::V>, nat), Error> {
        match self.0.spec_decode(s) {
            Err(e) => Err(e),
            Ok((n, k)) => if k <= s.len() {
                match spec_decode_counted(&self.1, s.skip(k as int), n) {
                    Ok((vs, m)) => Ok((vs, k + m)),
                    Err(e) => Err(e),
                }
            } else {
                // ruled out by the length codec's own decode-length law
                Err(Error::Length { obtained: 0, expected: 0 })
            },
        }
    }

    open spec fn spec_encode(&self, vs: Seq<T::V>) -> Result<Seq<u8>, Error> {
        if vs.len() > usize::MAX {
            Err(Error::Overflow)
        } else {
            match self.0.spec_encode(vs.len() as usize) {
                Err(e) => Err(e),
                Ok(lb) => match spec_encode_items(&self.1, vs) {
                    Err(e) => Err(e),
                    Ok(bs) => Ok(lb + bs),
                },
            }
        }
    }

    fn decode(&self, input: &[u8], pos: usize) -> (r: Result<(Vec<T>, usize), Error>) {
        match self.0.decode(input, pos) {
            Err(e) => Err(e),
            Ok((n, end1)) => {
                proof {
                    let s = input@.skip(pos as int);
                    let k = (end1 - pos) as nat;
                    assert(s.skip(k as int) =~= input@.skip(end1 as int));
                }
                match decode_counted_items(&self.1, input, end1, n) {
                    Err(e) => Err(e),
                    Ok((vs, end2)) => Ok((vs, end2)),
                }
            },
        }
    }

    fn encode(&self, values: &Vec<T>, out: &mut Vec<u8>) -> (r: Result<(), Error>) {
        let n = values.len();
        let start = out.len();
        match self.0.encode(&n, out) {
            Err(e) => Err(e),
            Ok(()) => {
                match encode_items(&self.1, values, out) {
                    Ok(()) => Ok(()),
                    Err(e) => {
                        proof {
                            assert(out@.take(start as int) =~= old(out)@);
                        }
                        out.truncate(start);
                        assert(out@ =~= old(out)@);
                        Err(e)
                    },
                }
            },
        }
    }

    proof fn lemma_decode_len(&self, s: Seq<u8>) {
        self.0.lemma_decode_len(s);
        match self.0.spec_decode(s) {
            Ok((n, k)) => {
                if k <= s.len() {
                    lemma_decode_n_len(&self.1, s.skip(k as int), n as nat);
                }
            },
            Err(_) => {},
        }
    }

    proof fn lemma_decode_encode(&self, vs: Seq<T::V>, rest: Seq<u8>) {
        let n = vs.len() as usize;
        let lb = self.0.spec_encode(n)->Ok_0;
        let bs = spec_encode_items(&self.1, vs)->Ok_0;
        self.0.lemma_decode_encode(n, bs + rest);
        assert((lb + bs) + rest =~= lb + (bs + rest));
        assert(self.0.spec_decode(lb + (bs + rest)) == Ok::<_, Error>((n, lb.len())));
        assert((lb + (bs + rest)).skip(lb.len() as int) =~= bs + rest);
        lemma_decode_n_encode(&self.1, vs, rest);
        assert(spec_decode_n(&self.1, bs + rest, vs.len()) == Ok::<_, (nat, Error)>(
            (vs, bs.len()),
        ));
    }

    proof fn lemma_encode_decode(&self, s: Seq<u8>) {
        self.0.lemma_decode_len(s);
        self.0.lemma_encode_decode(s);
        match self.0.spec_decode(s) {
            Ok((n, k)) => {
                if k <= s.len() {
                    lemma_decode_n_len(&self.1, s.skip(k as int), n as nat);
                    lemma_decode_n_exact(&self.1, s.skip(k as int), n as nat);
                    match spec_decode_n(&self.1, s.skip(k as int), n as nat) {
                        Ok((vs, m)) => {
                            assert(vs.len() == n);
                            assert(s.take(k as int) + s.skip(k as int).take(m as int) =~= s.take(
                                (k + m) as int,
                            ));
                        },
                        Err(_) => {},
                    }
                }
            },
            Err(_) => {},
        }
    }
}

/// Every 16-bit integer encodes (to two bytes); a whole sequence of them
/// therefore encodes.
proof fn lemma_u16_items_encode_total(vs: Seq<u16>)
    ensures
        spec_encode_items::<u16, LittleEndian>(&LittleEndian, vs) is Ok,
    decreases vs.len(),
{
    if vs.len() > 0 {
        lemma_u16_items_encode_total(vs.skip(1));
    }
}

/// The round-trip law, instantiated at the canonical record shape: a 32-bit
/// little-endian count followed by that many 16-bit little-endian integers.
///
/// Any sequence of 16-bit values whose length fits the count field encodes
/// successfully, and decoding that encoding — whatever bytes follow it —
/// yields exactly the original sequence, consuming exactly its encoding.
pub proof fn lemma_record_round_trip(vs: Seq<u16>, rest: Seq<u8>)
    requires
        vs.len() <= u32::MAX,
    ensures
        ({
            let codec = (LengthPrefixed(TryAsU32(LittleEndian), LittleEndian));
            let enc = Codec::<Vec<u16>>::spec_encode(&codec, vs);
            &&& enc is Ok
            &&& Codec::<Vec<u16>>::spec_decode(&codec, enc->Ok_0 + rest) == Ok::<_, Error>(
                (vs, enc->Ok_0.len()),
            )
        }),
{
    let codec = LengthPrefixed(TryAsU32(LittleEndian), LittleEndian);
    lemma_u16_items_encode_total(vs);
    assert(Codec::<Vec<u16>>::spec_encode(&codec, vs) is Ok);
    Codec::<Vec<u16>>::lemma_decode_encode(&codec, vs, rest);
}

} // verus!
