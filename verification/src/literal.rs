//! A fixed byte pattern: format magic numbers and tags.
//!
//! Decoding validates the input byte-for-byte against the configured constant
//! and produces no value; encoding writes the constant unconditionally.

use vstd::prelude::*;

use crate::codec::Codec;
use crate::error::Error;

verus! {

/// Checks the constant `lit` against `s`, from index `i` on: the first
/// position where the input runs out yields a length error, the first
/// differing byte yields a mismatch error naming the index and both bytes.
pub open spec fn spec_literal_check(lit: Seq<u8>, s: Seq<u8>, i: nat) -> Option<Error>
    decreases lit.len() - i,
{
    if i >= lit.len() {
        None
    } else if i >= s.len() {
        Some(Error::Length { obtained: s.len() as usize, expected: lit.len() as usize })
    } else if s[i as int] != lit[i as int] {
        Some(Error::Mismatch { index: i as usize, expected: lit[i as int], received: s[i as int] })
    } else {
        spec_literal_check(lit, s, (i + 1) as nat)
    }
}

/// A successful check means the literal is a prefix of the input.
proof fn lemma_literal_check_ok(lit: Seq<u8>, s: Seq<u8>, i: nat)
    requires
        i <= lit.len(),
        spec_literal_check(lit, s, i) is None,
    ensures
        i < lit.len() ==> lit.len() <= s.len(),
        forall|j: int| i <= j < lit.len() ==> s[j] == lit[j],
    decreases lit.len() - i,
{
    if i < lit.len() {
        lemma_literal_check_ok(lit, s, (i + 1) as nat);
    }
}

/// Conversely, the check passes on any input that starts with the literal.
proof fn lemma_literal_check_prefix(lit: Seq<u8>, s: Seq<u8>, i: nat)
    requires
        i <= lit.len(),
        lit.len() <= s.len(),
        forall|j: int| 0 <= j < lit.len() ==> s[j] == lit[j],
    ensures
        spec_literal_check(lit, s, i) is None,
    decreases lit.len() - i,
{
    if i < lit.len() {
        lemma_literal_check_prefix(lit, s, (i + 1) as nat);
    }
}

/// Stores a fixed binary constant instead of a value.
/// (Parameter: the bytes to write out, or to check the input against.)
#[derive(Debug, Clone, PartialEq, Eq)]
pub struct Literal(pub Vec<u8>);

impl Codec<()> for Literal {
    open spec fn wf(&self) -> bool {
        true
    }

    open spec fn delimited(&self) -> bool {
        true
    }

    open spec fn spec_decode(&self, s: Seq<u8>) -> Result<((), nat), Error> {
        match spec_literal_check(self.0@, s, 0) {
            None => Ok(((), self.0@.len())),
            Some(e) => Err(e),
        }
    }

    open spec fn spec_encode(&self, v: ()) -> Result<Seq<u8>, Error> {
        Ok(self.0@)
    }

    fn decode(&self, input: &[u8], pos: usize) -> (r: Result<((), usize), Error>) {
        let n = self.0.len();
        let len = input.len();
        let ghost s = input@.skip(pos as int);
        let mut i: usize = 0;
        while i < n
            invariant
                i <= n,
                n == self.0@.len(),
                len == input@.len(),
                pos + i <= len,
                s == input@.skip(pos as int),
                spec_literal_check(self.0@, s, i as nat) == spec_literal_check(self.0@, s, 0),
            decreases n - i,
        {
            if pos + i == len {
                assert(s.len() == i);
                return Err(Error::Length { obtained: i, expected: n });
            }
            let received = input[pos + i];
            let expected = self.0[i];
            assert(s[i as int] == input@[pos + i]);
            if received != expected {
                return Err(Error::Mismatch { index: i, expected, received });
            }
            i = i + 1;
        }
        assert(spec_literal_check(self.0@, s, n as nat) is None);
        Ok(((), pos + n))
    }

    fn encode(&self, value: &(), out: &mut Vec<u8>) -> (r: Result<(), Error>) {
        out.extend_from_slice(self.0.as_slice());
        Ok(())
    }

    proof fn lemma_decode_len(&self, s: Seq<u8>) {
        if spec_literal_check(self.0@, s, 0) is None {
            lemma_literal_check_ok(self.0@, s, 0);
        }
    }

    proof fn lemma_decode_encode(&self, v: (), rest: Seq<u8>) {
        let s = self.0@ + rest;
        lemma_literal_check_prefix(self.0@, s, 0);
    }

    proof fn lemma_encode_decode(&self, s: Seq<u8>) {
        if spec_literal_check(self.0@, s, 0) is None {
            lemma_literal_check_ok(self.0@, s, 0);
            assert(s.take(self.0@.len() as int) =~= self.0@);
        }
    }
}

} // verus!
