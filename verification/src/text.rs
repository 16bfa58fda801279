//! Fixed-table text: `String` stored as Windows-1252 bytes.
//!
//! The nested codec carries the raw bytes (a raw buffer for
//! fixed-to-end-of-input text, or a length-prefixed byte sequence for framed
//! text); this codec maps each byte through the external Windows-1252
//! character table on decode, and each character through the inverse table on
//! encode. Both directions are strict: the first symbol without a mapping
//! fails the whole operation, reporting its position and value — no
//! best-effort substitution.
//!
//! The table itself belongs to the outside `encoding` crate. Its two
//! directions are named by [`win1252_decode_byte`] and
//! [`win1252_encode_char`]; the trusted per-symbol wrappers state, for every
//! symbol actually converted, that the two directions invert one another, as
//! the crate's generated index tables show.

use vstd::prelude::*;

use crate::codec::Codec;
use crate::error::Error;

verus! {

/// What the Windows-1252 table decodes one byte to, if anything.
pub uninterp spec fn win1252_decode_byte(b: u8) -> Option<char>;

/// What the inverse Windows-1252 table encodes one character to, if anything.
pub uninterp spec fn win1252_encode_char(c: char) -> Option<u8>;

/// The two directions of the character table invert one another. This is a
/// property of the outside table: the trusted wrappers state it pointwise for
/// every symbol they convert, and the round-trip laws of the text codec
/// assume it wholesale.
pub open spec fn win1252_table_consistent() -> bool {
    &&& forall|c: char|
        (#[trigger] win1252_encode_char(c)) matches Some(b) ==> win1252_decode_byte(b) == Some(c)
    &&& forall|b: u8|
        (#[trigger] win1252_decode_byte(b)) matches Some(c) ==> win1252_encode_char(c) == Some(b)
}

/// Relies on `encoding::all::WINDOWS_1252` (a single-byte encoding) with the
/// strict decoder trap: one byte decodes to one character or fails. The
/// crate's index tables are mutual inverses, so a decoded character encodes
/// back to the byte it came from.
#[verifier::external_body]
fn win1252_byte_to_char(b: u8) -> (r: Option<char>)
    ensures
        r == win1252_decode_byte(b),
        r matches Some(c) ==> win1252_encode_char(c) == Some(b),
{
    match encoding::types::Encoding::decode(
        encoding::all::WINDOWS_1252,
        &[b],
        encoding::types::DecoderTrap::Strict,
    ) {
        Ok(s) => s.chars().next(),
        Err(_) => None,
    }
}

/// Relies on `encoding::all::WINDOWS_1252` with the strict encoder trap: one
/// character encodes to one byte or fails. The crate's index tables are
/// mutual inverses, so an encoded byte decodes back to the character it came
/// from.
#[verifier::external_body]
fn win1252_char_to_byte(c: char) -> (r: Option<u8>)
    ensures
        r == win1252_encode_char(c),
        r matches Some(b) ==> win1252_decode_byte(b) == Some(c),
{
    let mut buf = [0u8; 4];
    let s: &str = c.encode_utf8(&mut buf);
    match encoding::types::Encoding::encode(
        encoding::all::WINDOWS_1252,
        s,
        encoding::types::EncoderTrap::Strict,
    ) {
        Ok(v) => v.into_iter().next(),
        Err(_) => None,
    }
}

/// Relies on `core::iter::Iterator::collect`: collecting chars yields a
/// string holding exactly those chars in order.
#[verifier::external_body]
fn chars_into_string(chars: &Vec<char>) -> (s: String)
    ensures
        s@ == chars@,
{
    chars.iter().collect()
}

/// Relies on `str::chars` and `core::iter::Iterator::collect`: a string's
/// chars, collected, are exactly its characters in order.
#[verifier::external_body]
fn string_chars(s: &str) -> (chars: Vec<char>)
    ensures
        chars@ == s@,
{
    s.chars().collect()
}

/// Map every byte of `bs` from `i` on through the table; the first byte
/// without a mapping fails with its position and value.
pub open spec fn spec_decode_text(bs: Seq<u8>, i: nat) -> Result<Seq<char>, Error>
    decreases bs.len() - i,
{
    if i >= bs.len() {
        Ok(Seq::empty())
    } else {
        match win1252_decode_byte(bs[i as int]) {
            None => Err(Error::UnmappableByte { index: i as usize, byte: bs[i as int] }),
            Some(c) => match spec_decode_text(bs, (i + 1) as nat) {
                Err(e) => Err(e),
                Ok(cs) => Ok(seq![c] + cs),
            },
        }
    }
}

/// Map every character of `cs` from `i` on through the inverse table; the
/// first character without a mapping fails with its position and value.
pub open spec fn spec_encode_text(cs: Seq<char>, i: nat) -> Result<Seq<u8>, Error>
    decreases cs.len() - i,
{
    if i >= cs.len() {
        Ok(Seq::empty())
    } else {
        match win1252_encode_char(cs[i as int]) {
            None => Err(Error::UnmappableChar { index: i as usize, character: cs[i as int] }),
            Some(b) => match spec_encode_text(cs, (i + 1) as nat) {
                Err(e) => Err(e),
                Ok(bs) => Ok(seq![b] + bs),
            },
        }
    }
}

/// Decoding the bytes that a text encoded to yields the text back.
proof fn lemma_text_decode_encode(cs: Seq<char>, i: nat, bs: Seq<u8>, k: nat)
    requires
        win1252_table_consistent(),
        i <= cs.len(),
        k <= bs.len(),
        spec_encode_text(cs, i) == Ok::<_, Error>(bs.skip(k as int)),
    ensures
        spec_decode_text(bs, k) == Ok::<_, Error>(cs.skip(i as int)),
    decreases cs.len() - i,
{
    if i == cs.len() {
        assert(bs.skip(k as int).len() == 0);
        assert(k == bs.len());
        assert(cs.skip(i as int) =~= Seq::<char>::empty());
    } else {
        let b0 = win1252_encode_char(cs[i as int])->Some_0;
        let tail = spec_encode_text(cs, (i + 1) as nat)->Ok_0;
        assert(bs.skip(k as int) == seq![b0] + tail);
        assert(bs[k as int] == (seq![b0] + tail)[0]);
        assert(k < bs.len()) by {
            assert(bs.skip(k as int).len() >= 1);
        }
        assert(bs.skip(k as int + 1) =~= tail) by {
            assert(bs.skip(k as int).skip(1) =~= bs.skip(k as int + 1));
            assert((seq![b0] + tail).skip(1) =~= tail);
        }
        assert(win1252_decode_byte(bs[k as int]) == Some(cs[i as int]));
        lemma_text_decode_encode(cs, (i + 1) as nat, bs, (k + 1) as nat);
        assert(seq![cs[i as int]] + cs.skip(i as int + 1) =~= cs.skip(i as int));
    }
}

/// Re-encoding a decoded text reproduces the exact bytes it came from.
proof fn lemma_text_encode_decode(bs: Seq<u8>, i: nat, cs: Seq<char>, j: nat)
    requires
        win1252_table_consistent(),
        i <= bs.len(),
        j <= cs.len(),
        spec_decode_text(bs, i) == Ok::<_, Error>(cs.skip(j as int)),
    ensures
        spec_encode_text(cs, j) == Ok::<_, Error>(bs.skip(i as int)),
    decreases bs.len() - i,
{
    if i == bs.len() {
        assert(cs.skip(j as int).len() == 0);
        assert(j == cs.len());
        assert(bs.skip(i as int) =~= Seq::<u8>::empty());
    } else {
        let c0 = win1252_decode_byte(bs[i as int])->Some_0;
        let tail = spec_decode_text(bs, (i + 1) as nat)->Ok_0;
        assert(cs.skip(j as int) == seq![c0] + tail);
        assert(cs[j as int] == (seq![c0] + tail)[0]);
        assert(j < cs.len()) by {
            assert(cs.skip(j as int).len() >= 1);
        }
        assert(cs.skip(j as int + 1) =~= tail) by {
            assert(cs.skip(j as int).skip(1) =~= cs.skip(j as int + 1));
            assert((seq![c0] + tail).skip(1) =~= tail);
        }
        assert(win1252_encode_char(cs[j as int]) == Some(bs[i as int]));
        lemma_text_encode_decode(bs, (i + 1) as nat, cs, (j + 1) as nat);
        assert(seq![bs[i as int]] + bs.skip(i as int + 1) =~= bs.skip(i as int));
    }
}

/// `String` as strict Windows-1252 bytes, carried by a nested byte codec.
/// (Usage: `Windows1252(bytes_codec)`.)
#[derive(Debug, Clone, Copy)]
pub struct Windows1252<BytesCodec>(pub BytesCodec);

impl<C: Codec<Vec<u8>>> Codec<String> for Windows1252<C> {
    open spec fn wf(&self) -> bool {
        self.0.wf()
    }

    open spec fn delimited(&self) -> bool {
        self.0.delimited()
    }

    open spec fn round_trip_inv(&self) -> bool {
        self.0.round_trip_inv() && win1252_table_consistent()
    }

    open spec fn spec_decode(&self, s: Seq<u8>) -> Result<(Seq<char>, nat), Error> {
        match self.0.spec_decode(s) {
            Err(e) => Err(e),
            Ok((bs, k)) => match spec_decode_text(bs, 0) {
                Err(e) => Err(e),
                Ok(cs) => Ok((cs, k)),
            },
        }
    }

    open spec fn spec_encode(&self, cs: Seq<char>) -> Result<Seq<u8>, Error> {
        match spec_encode_text(cs, 0) {
            Err(e) => Err(e),
            Ok(bs) => self.0.spec_encode(bs),
        }
    }

    fn decode(&self, input: &[u8], pos: usize) -> (r: Result<(String, usize), Error>) {
        match self.0.decode(input, pos) {
            Err(e) => Err(e),
            Ok((bytes, end)) => {
                let ghost bs = bytes.deep_view();
                assert(bs =~= bytes@);
                let n = bytes.len();
                let mut chars: Vec<char> = Vec::new();
                let mut i: usize = 0;
                while i < n
                    invariant
                        self.wf(),
                        i <= n,
                        n == bytes@.len(),
                        bs == bytes@,
                        pos <= end <= input@.len(),
                        self.0.spec_decode(input@.skip(pos as int)) == Ok::<(Seq<u8>, nat), Error>(
                            (bs, (end - pos) as nat),
                        ),
                        chars@.len() == i,
                        spec_decode_text(bs, 0) == match spec_decode_text(bs, i as nat) {
                            Ok(cs) => Ok::<_, Error>(chars@ + cs),
                            Err(e) => Err::<Seq<char>, _>(e),
                        },
                    decreases n - i,
                {
                    let ghost pre = chars@;
                    let b = bytes[i];
                    match win1252_byte_to_char(b) {
                        None => {
                            assert(spec_decode_text(bs, i as nat) == Err::<Seq<char>, Error>(
                                Error::UnmappableByte { index: i, byte: b },
                            ));
                            return Err(Error::UnmappableByte { index: i, byte: b });
                        },
                        Some(c) => {
                            chars.push(c);
                            proof {
                                assert(chars@ =~= pre + seq![c]);
                                assert forall|cs: Seq<char>|
                                    (pre + seq![c]) + cs =~= pre + (seq![c] + cs) by {};
                            }
                            i = i + 1;
                        },
                    }
                }
                assert(chars@ + Seq::<char>::empty() =~= chars@);
                let text = chars_into_string(&chars);
                assert(text.deep_view() == chars@);
                Ok((text, end))
            },
        }
    }

    fn encode(&self, value: &String, out: &mut Vec<u8>) -> (r: Result<(), Error>) {
        let chars = string_chars(value.as_str());
        let ghost cs = value.deep_view();
        assert(cs == value@);
        let n = chars.len();
        let mut bytes: Vec<u8> = Vec::new();
        let mut i: usize = 0;
        while i < n
            invariant
                self.wf(),
                i <= n,
                n == chars@.len(),
                cs == chars@,
                cs == value.deep_view(),
                bytes@.len() == i,
                spec_encode_text(cs, 0) == match spec_encode_text(cs, i as nat) {
                    Ok(bs) => Ok::<_, Error>(bytes@ + bs),
                    Err(e) => Err::<Seq<u8>, _>(e),
                },
            decreases n - i,
        {
            let ghost pre = bytes@;
            let c = chars[i];
            match win1252_char_to_byte(c) {
                None => {
                    assert(spec_encode_text(cs, i as nat) == Err::<Seq<u8>, Error>(
                        Error::UnmappableChar { index: i, character: c },
                    ));
                    return Err(Error::UnmappableChar { index: i, character: c });
                },
                Some(b) => {
                    bytes.push(b);
                    proof {
                        assert(bytes@ =~= pre + seq![b]);
                        assert forall|bs: Seq<u8>| (pre + seq![b]) + bs =~= pre + (seq![b] + bs)
                            by {};
                    }
                    i = i + 1;
                },
            }
        }
        assert(bytes@ + Seq::<u8>::empty() =~= bytes@);
        assert(bytes.deep_view() =~= bytes@);
        self.0.encode(&bytes, out)
    }

    proof fn lemma_decode_len(&self, s: Seq<u8>) {
        self.0.lemma_decode_len(s);
    }

    proof fn lemma_decode_encode(&self, cs: Seq<char>, rest: Seq<u8>) {
        let bs = spec_encode_text(cs, 0)->Ok_0;
        self.0.lemma_decode_encode(bs, rest);
        assert(bs.skip(0) =~= bs);
        assert(cs.skip(0) =~= cs);
        lemma_text_decode_encode(cs, 0, bs, 0);
    }

    proof fn lemma_encode_decode(&self, s: Seq<u8>) {
        self.0.lemma_encode_decode(s);
        match self.0.spec_decode(s) {
            Ok((bs, k)) => {
                match spec_decode_text(bs, 0) {
                    Ok(cs) => {
                        assert(bs.skip(0) =~= bs);
                        assert(cs.skip(0) =~= cs);
                        lemma_text_encode_decode(bs, 0, cs, 0);
                    },
                    Err(_) => {},
                }
            },
            Err(_) => {},
        }
    }
}

} // verus!
