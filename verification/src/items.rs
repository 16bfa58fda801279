//! Shared element-wise machinery for the container codecs.
//!
//! The tuple, counted-sequence and length-prefixed codecs all reduce to the
//! same three operations over one item codec: decode exactly `n` items,
//! decode items until the input is exhausted, and encode every element of a
//! container in order. This module defines those operations once — their
//! specification functions, the executable loops, and the lemmas from which
//! the containers' round-trip laws follow.

use vstd::prelude::*;

use crate::codec::Codec;
use crate::error::Error;

verus! {

/// Decode exactly `n` items from the front of `s`.
///
/// On success: the item views in order and the total bytes consumed. On
/// failure: how many items were obtained before the failing one, paired with
/// the failing item's own error (the containers translate an out-of-input
/// error into their count mismatch, and propagate every other error
/// unchanged).
pub open spec fn spec_decode_n<T: DeepView, C: Codec<T>>(
    item: &C,
    s: Seq<u8>,
    n: nat,
) -> Result<(Seq<T::V>, nat), (nat, Error)>
    decreases n,
{
    if n == 0 {
        Ok((Seq::empty(), 0))
    } else {
        match item.spec_decode(s) {
            Err(e) => Err((0, e)),
            Ok((v, k)) => if k <= s.len() {
                match spec_decode_n(item, s.skip(k as int), (n - 1) as nat) {
                    Ok((vs, m)) => Ok((seq![v] + vs, k + m)),
                    Err((j, e)) => Err((j + 1, e)),
                }
            } else {
                // ruled out by Codec::lemma_decode_len; some arm is needed
                // for the function to be total
                Err((0, Error::Length { obtained: 0, expected: 0 }))
            },
        }
    }
}

/// Decode items until no input remains.
///
/// An item that succeeds while consuming nothing would never exhaust the
/// input; that degenerate composition is reported as a length error rather
/// than looped on.
pub open spec fn spec_decode_all<T: DeepView, C: Codec<T>>(item: &C, s: Seq<u8>) -> Result<
    (Seq<T::V>, nat),
    Error,
>
    decreases s.len(),
{
    if s.len() == 0 {
        Ok((Seq::empty(), 0))
    } else {
        match item.spec_decode(s) {
            Err(e) => Err(e),
            Ok((v, k)) => if 0 < k <= s.len() {
                match spec_decode_all(item, s.skip(k as int)) {
                    Ok((vs, m)) => Ok((seq![v] + vs, k + m)),
                    Err(e) => Err(e),
                }
            } else {
                Err(Error::Length { obtained: 0, expected: 1 })
            },
        }
    }
}

/// Encode every element of `vs` in order; the first failing element's error
/// is the result, unchanged.
pub open spec fn spec_encode_items<T: DeepView, C: Codec<T>>(item: &C, vs: Seq<T::V>) -> Result<
    Seq<u8>,
    Error,
>
    decreases vs.len(),
{
    if vs.len() == 0 {
        Ok(Seq::empty())
    } else {
        match item.spec_encode(vs[0]) {
            Err(e) => Err(e),
            Ok(b) => match spec_encode_items(item, vs.skip(1)) {
                Err(e) => Err(e),
                Ok(bs) => Ok(b + bs),
            },
        }
    }
}

/// A successful n-item decode yields exactly `n` items and stays in bounds.
pub proof fn lemma_decode_n_len<T: DeepView, C: Codec<T>>(item: &C, s: Seq<u8>, n: nat)
    requires
        item.wf(),
    ensures
        spec_decode_n(item, s, n) matches Ok((vs, m)) ==> vs.len() == n && m <= s.len(),
    decreases n,
{
    if n > 0 {
        item.lemma_decode_len(s);
        match item.spec_decode(s) {
            Ok((v, k)) => {
                if k <= s.len() {
                    lemma_decode_n_len(item, s.skip(k as int), (n - 1) as nat);
                }
            },
            Err(_) => {},
        }
    }
}

/// A successful decode-until-exhaustion consumes the entire input.
pub proof fn lemma_decode_all_len<T: DeepView, C: Codec<T>>(item: &C, s: Seq<u8>)
    requires
        item.wf(),
    ensures
        spec_decode_all(item, s) matches Ok((vs, m)) ==> m == s.len(),
    decreases s.len(),
{
    if s.len() > 0 {
        item.lemma_decode_len(s);
        match item.spec_decode(s) {
            Ok((v, k)) => {
                if 0 < k <= s.len() {
                    lemma_decode_all_len(item, s.skip(k as int));
                }
            },
            Err(_) => {},
        }
    }
}

/// Round trip, decode after encode: `n` encoded items followed by anything
/// decode back to the same items, consuming exactly their encoding.
pub proof fn lemma_decode_n_encode<T: DeepView, C: Codec<T>>(
    item: &C,
    vs: Seq<T::V>,
    rest: Seq<u8>,
)
    requires
        item.wf(),
        item.round_trip_inv(),
        item.delimited(),
        spec_encode_items(item, vs) is Ok,
    ensures
        spec_decode_n(item, spec_encode_items(item, vs)->Ok_0 + rest, vs.len()) == Ok::<
            _,
            (nat, Error),
        >((vs, spec_encode_items(item, vs)->Ok_0.len())),
    decreases vs.len(),
{
    let bs = spec_encode_items(item, vs)->Ok_0;
    if vs.len() == 0 {
        assert(vs =~= Seq::<T::V>::empty());
        assert(bs + rest =~= rest);
    } else {
        let b0 = item.spec_encode(vs[0])->Ok_0;
        let bs1 = spec_encode_items(item, vs.skip(1))->Ok_0;
        assert(bs == b0 + bs1);
        item.lemma_decode_encode(vs[0], bs1 + rest);
        assert(bs + rest =~= b0 + (bs1 + rest));
        assert(item.spec_decode(bs + rest) == Ok::<_, Error>((vs[0], b0.len())));
        assert((bs + rest).skip(b0.len() as int) =~= bs1 + rest);
        lemma_decode_n_encode(item, vs.skip(1), rest);
        assert(spec_decode_n(item, bs1 + rest, vs.skip(1).len()) == Ok::<_, (nat, Error)>(
            (vs.skip(1), bs1.len()),
        ));
        assert(seq![vs[0]] + vs.skip(1) =~= vs);
        assert(spec_decode_n(item, bs + rest, vs.len()) == Ok::<_, (nat, Error)>(
            (vs, b0.len() + bs1.len()),
        ));
    }
}

/// Round trip, encode after decode: items decoded from `s` re-encode to
/// exactly the consumed prefix of `s`.
pub proof fn lemma_decode_n_exact<T: DeepView, C: Codec<T>>(item: &C, s: Seq<u8>, n: nat)
    requires
        item.wf(),
        item.round_trip_inv(),
    ensures
        spec_decode_n(item, s, n) matches Ok((vs, m)) ==> spec_encode_items(item, vs) == Ok::<
            _,
            Error,
        >(s.take(m as int)),
    decreases n,
{
    assert(s.take(0) =~= Seq::<u8>::empty());
    if n > 0 {
        item.lemma_decode_len(s);
        item.lemma_encode_decode(s);
        match item.spec_decode(s) {
            Ok((v, k)) => {
                if k <= s.len() {
                    lemma_decode_n_exact(item, s.skip(k as int), (n - 1) as nat);
                    lemma_decode_n_len(item, s.skip(k as int), (n - 1) as nat);
                    match spec_decode_n(item, s.skip(k as int), (n - 1) as nat) {
                        Ok((vs1, m1)) => {
                            let vs = seq![v] + vs1;
                            assert(vs[0] == v);
                            assert(vs.skip(1) =~= vs1);
                            assert(s.take(k as int) + s.skip(k as int).take(m1 as int) =~= s.take(
                                (k + m1) as int,
                            ));
                        },
                        Err(_) => {},
                    }
                }
            },
            Err(_) => {},
        }
    }
}

/// Every value the item codec can encode takes at least one byte. The
/// exhaustive decoder requires this of its item codec: a zero-byte item
/// could be repeated forever without exhausting the input.
pub open spec fn items_progress<T: DeepView, C: Codec<T>>(item: &C) -> bool {
    forall|v: T::V| (#[trigger] item.spec_encode(v)) matches Ok(b) ==> b.len() > 0
}

/// Round trip, decode after encode, for the exhaustive decoder: the
/// concatenated encodings of the items decode back to the same items. Every
/// item must encode to at least one byte, else the exhaustive decoder could
/// never terminate on them.
pub proof fn lemma_decode_all_encode<T: DeepView, C: Codec<T>>(item: &C, vs: Seq<T::V>)
    requires
        item.wf(),
        item.round_trip_inv(),
        item.delimited(),
        spec_encode_items(item, vs) is Ok,
        items_progress(item),
    ensures
        spec_decode_all(item, spec_encode_items(item, vs)->Ok_0) == Ok::<_, Error>(
            (vs, spec_encode_items(item, vs)->Ok_0.len()),
        ),
    decreases vs.len(),
{
    let bs = spec_encode_items(item, vs)->Ok_0;
    if vs.len() == 0 {
        assert(vs =~= Seq::<T::V>::empty());
    } else {
        let b0 = item.spec_encode(vs[0])->Ok_0;
        let bs1 = spec_encode_items(item, vs.skip(1))->Ok_0;
        assert(bs == b0 + bs1);
        item.lemma_decode_encode(vs[0], bs1);
        assert(item.spec_decode(bs) == Ok::<_, Error>((vs[0], b0.len())));
        assert(b0.len() > 0);
        assert(bs.skip(b0.len() as int) =~= bs1);
        lemma_decode_all_encode(item, vs.skip(1));
        assert(spec_decode_all(item, bs1) == Ok::<_, Error>((vs.skip(1), bs1.len())));
        assert(seq![vs[0]] + vs.skip(1) =~= vs);
        assert(spec_decode_all(item, bs) == Ok::<_, Error>((vs, b0.len() + bs1.len())));
    }
}

/// Round trip, encode after decode, for the exhaustive decoder.
pub proof fn lemma_decode_all_exact<T: DeepView, C: Codec<T>>(item: &C, s: Seq<u8>)
    requires
        item.wf(),
        item.round_trip_inv(),
    ensures
        spec_decode_all(item, s) matches Ok((vs, m)) ==> spec_encode_items(item, vs) == Ok::<
            _,
            Error,
        >(s.take(m as int)),
    decreases s.len(),
{
    assert(s.take(0) =~= Seq::<u8>::empty());
    if s.len() > 0 {
        item.lemma_decode_len(s);
        item.lemma_encode_decode(s);
        match item.spec_decode(s) {
            Ok((v, k)) => {
                if 0 < k <= s.len() {
                    lemma_decode_all_exact(item, s.skip(k as int));
                    lemma_decode_all_len(item, s.skip(k as int));
                    match spec_decode_all(item, s.skip(k as int)) {
                        Ok((vs1, m1)) => {
                            let vs = seq![v] + vs1;
                            assert(vs[0] == v);
                            assert(vs.skip(1) =~= vs1);
                            assert(s.take(k as int) + s.skip(k as int).take(m1 as int) =~= s.take(
                                (k + m1) as int,
                            ));
                        },
                        Err(_) => {},
                    }
                }
            },
            Err(_) => {},
        }
    }
}

/// [`spec_decode_n`] with a container's error reporting: an item failing for
/// want of input becomes the container's count mismatch (items obtained
/// versus items expected); any other item error propagates unchanged.
pub open spec fn spec_decode_counted<T: DeepView, C: Codec<T>>(
    item: &C,
    s: Seq<u8>,
    n: usize,
) -> Result<(Seq<T::V>, nat), Error> {
    match spec_decode_n(item, s, n as nat) {
        Ok((vs, m)) => Ok((vs, m)),
        Err((j, e)) => Err(
            if e.is_length() {
                Error::Length { obtained: j as usize, expected: n }
            } else {
                e
            },
        ),
    }
}

/// [`spec_encode_items`], guarded by the asserted count: a container whose
/// length disagrees with `n` fails before any element is written.
pub open spec fn spec_encode_counted<T: DeepView, C: Codec<T>>(
    item: &C,
    vs: Seq<T::V>,
    n: usize,
) -> Result<Seq<u8>, Error> {
    if vs.len() != n {
        Err(Error::Length { obtained: vs.len() as usize, expected: n })
    } else {
        spec_encode_items(item, vs)
    }
}

/// Decode exactly `n` items from `input` starting at `pos`.
pub fn decode_n_items<T: DeepView, C: Codec<T>>(
    item: &C,
    input: &[u8],
    pos: usize,
    n: usize,
) -> (r: Result<(Vec<T>, usize), (usize, Error)>)
    requires
        item.wf(),
        pos <= input@.len(),
    ensures
        match r {
            Ok((vs, end)) => {
                &&& pos <= end <= input@.len()
                &&& spec_decode_n(item, input@.skip(pos as int), n as nat) == Ok::<
                    _,
                    (nat, Error),
                >((vs.deep_view(), (end - pos) as nat))
            },
            Err((j, e)) => spec_decode_n(item, input@.skip(pos as int), n as nat) == Err::<
                (Seq<T::V>, nat),
                _,
            >(((j as nat), e)),
        },
{
    let ghost s0 = input@.skip(pos as int);
    let mut values: Vec<T> = Vec::new();
    let mut cur: usize = pos;
    let mut i: usize = 0;
    assert(values.deep_view() =~= Seq::<T::V>::empty());
    while i < n
        invariant
            item.wf(),
            i <= n,
            pos <= cur <= input@.len(),
            s0 == input@.skip(pos as int),
            values.deep_view().len() == i,
            spec_decode_n(item, s0, n as nat) == match spec_decode_n(
                item,
                input@.skip(cur as int),
                (n - i) as nat,
            ) {
                Ok((vs, m)) => Ok::<_, (nat, Error)>(
                    (values.deep_view() + vs, ((cur - pos) + m) as nat),
                ),
                Err((j, e)) => Err::<(Seq<T::V>, nat), _>(((i + j) as nat, e)),
            },
        decreases n - i,
    {
        let ghost pre = values.deep_view();
        let ghost scur = input@.skip(cur as int);
        match item.decode(input, cur) {
            Ok((v, end)) => {
                proof {
                    let k = (end - cur) as nat;
                    assert(scur.skip(k as int) =~= input@.skip(end as int));
                }
                values.push(v);
                proof {
                    assert(values.deep_view() =~= pre.push(values.deep_view()[i as int]));
                    assert(values.deep_view() =~= pre + seq![values.deep_view()[i as int]]);
                    assert forall|vs: Seq<T::V>|
                        (pre + seq![values.deep_view()[i as int]]) + vs =~= pre + (seq![
                            values.deep_view()[i as int],
                        ] + vs) by {};
                }
                cur = end;
                i = i + 1;
            },
            Err(e) => {
                return Err((i, e));
            },
        }
    }
    assert(input@.skip(cur as int).len() == input@.len() - cur);
    assert(values.deep_view() + Seq::<T::V>::empty() =~= values.deep_view());
    Ok((values, cur))
}

/// Decode items from `pos` until the end of `input`.
pub fn decode_all_items<T: DeepView, C: Codec<T>>(item: &C, input: &[u8], pos: usize) -> (r: Result<
    (Vec<T>, usize),
    Error,
>)
    requires
        item.wf(),
        pos <= input@.len(),
    ensures
        match r {
            Ok((vs, end)) => {
                &&& pos <= end <= input@.len()
                &&& spec_decode_all(item, input@.skip(pos as int)) == Ok::<_, Error>(
                    (vs.deep_view(), (end - pos) as nat),
                )
            },
            Err(e) => spec_decode_all(item, input@.skip(pos as int)) == Err::<
                (Seq<T::V>, nat),
                _,
            >(e),
        },
{
    let ghost s0 = input@.skip(pos as int);
    let len = input.len();
    let mut values: Vec<T> = Vec::new();
    let mut cur: usize = pos;
    assert(values.deep_view() =~= Seq::<T::V>::empty());
    while cur < len
        invariant
            item.wf(),
            pos <= cur <= len,
            len == input@.len(),
            s0 == input@.skip(pos as int),
            spec_decode_all(item, s0) == match spec_decode_all(item, input@.skip(cur as int)) {
                Ok((vs, m)) => Ok::<_, Error>(
                    (values.deep_view() + vs, ((cur - pos) + m) as nat),
                ),
                Err(e) => Err::<(Seq<T::V>, nat), _>(e),
            },
        decreases len - cur,
    {
        let ghost pre = values.deep_view();
        let ghost scur = input@.skip(cur as int);
        assert(scur.len() > 0);
        match item.decode(input, cur) {
            Ok((v, end)) => {
                if end == cur {
                    return Err(Error::Length { obtained: 0, expected: 1 });
                }
                proof {
                    let k = (end - cur) as nat;
                    assert(scur.skip(k as int) =~= input@.skip(end as int));
                }
                values.push(v);
                proof {
                    let idx = pre.len() as int;
                    assert(values.deep_view() =~= pre + seq![values.deep_view()[idx]]);
                    assert forall|vs: Seq<T::V>|
                        (pre + seq![values.deep_view()[idx]]) + vs =~= pre + (seq![
                            values.deep_view()[idx],
                        ] + vs) by {};
                }
                cur = end;
            },
            Err(e) => {
                return Err(e);
            },
        }
    }
    assert(input@.skip(cur as int).len() == 0);
    assert(values.deep_view() + Seq::<T::V>::empty() =~= values.deep_view());
    Ok((values, cur))
}

/// Append the encodings of all elements of `values` to `out`, in order. On
/// the first failing element, `out` is restored to its incoming state and
/// that element's error is returned.
pub fn encode_items<T: DeepView, C: Codec<T>>(item: &C, values: &Vec<T>, out: &mut Vec<u8>) -> (r:
    Result<(), Error>)
    requires
        item.wf(),
    ensures
        match r {
            Ok(()) => {
                &&& spec_encode_items(item, values.deep_view()) is Ok
                &&& final(out)@ == old(out)@ + spec_encode_items(item, values.deep_view())->Ok_0
            },
            Err(e) => {
                &&& spec_encode_items(item, values.deep_view()) == Err::<Seq<u8>, _>(e)
                &&& final(out)@ == old(out)@
            },
        },
{
    let ghost vs0 = values.deep_view();
    let start = out.len();
    let n = values.len();
    let mut i: usize = 0;
    proof {
        assert(vs0.skip(0) =~= vs0);
        assert(out@.take(start as int) =~= old(out)@);
        assert forall|bs: Seq<u8>| out@.skip(start as int) + bs =~= bs by {
            assert(out@.skip(start as int) =~= Seq::<u8>::empty());
        };
    }
    while i < n
        invariant
            item.wf(),
            i <= n,
            n == values@.len(),
            vs0 == values.deep_view(),
            vs0.len() == n,
            start == old(out)@.len(),
            out@.len() >= start,
            out@.take(start as int) == old(out)@,
            spec_encode_items(item, vs0) == match spec_encode_items(item, vs0.skip(i as int)) {
                Ok(bs) => Ok::<_, Error>(out@.skip(start as int) + bs),
                Err(e) => Err::<Seq<u8>, _>(e),
            },
        decreases n - i,
    {
        let ghost tail = vs0.skip(i as int);
        assert(tail.len() > 0);
        assert(tail[0] == vs0[i as int]);
        assert(tail.skip(1) =~= vs0.skip(i as int + 1));
        let ghost before = out@;
        match item.encode(&values[i], out) {
            Ok(()) => {
                proof {
                    assert(values@[i as int].deep_view() == vs0[i as int]);
                    assert(out@.take(start as int) =~= old(out)@);
                    let b = item.spec_encode(vs0[i as int])->Ok_0;
                    assert(out@.skip(start as int) =~= before.skip(start as int) + b);
                    assert forall|bs: Seq<u8>|
                        (before.skip(start as int) + b) + bs =~= before.skip(start as int) + (b
                            + bs) by {};
                }
                i = i + 1;
            },
            Err(e) => {
                proof {
                    assert(out@ == before);
                }
                out.truncate(start);
                proof {
                    assert(out@ =~= old(out)@);
                }
                return Err(e);
            },
        }
    }
    assert(vs0.skip(n as int) =~= Seq::<T::V>::empty());
    assert(out@.skip(start as int) + Seq::<u8>::empty() =~= out@.skip(start as int));
    assert(out@ =~= out@.take(start as int) + out@.skip(start as int));
    Ok(())
}

/// Executable counterpart of [`spec_decode_counted`].
pub fn decode_counted_items<T: DeepView, C: Codec<T>>(
    item: &C,
    input: &[u8],
    pos: usize,
    n: usize,
) -> (r: Result<(Vec<T>, usize), Error>)
    requires
        item.wf(),
        pos <= input@.len(),
    ensures
        match r {
            Ok((vs, end)) => {
                &&& pos <= end <= input@.len()
                &&& spec_decode_counted(item, input@.skip(pos as int), n) == Ok::<_, Error>(
                    (vs.deep_view(), (end - pos) as nat),
                )
            },
            Err(e) => spec_decode_counted(item, input@.skip(pos as int), n) == Err::<
                (Seq<T::V>, nat),
                _,
            >(e),
        },
{
    match decode_n_items(item, input, pos, n) {
        Ok((vs, end)) => Ok((vs, end)),
        Err((j, e)) => if e.length_like() {
            Err(Error::Length { obtained: j, expected: n })
        } else {
            Err(e)
        },
    }
}

/// Executable counterpart of [`spec_encode_counted`].
pub fn encode_counted_items<T: DeepView, C: Codec<T>>(
    item: &C,
    values: &Vec<T>,
    n: usize,
    out: &mut Vec<u8>,
) -> (r: Result<(), Error>)
    requires
        item.wf(),
    ensures
        match r {
            Ok(()) => {
                &&& spec_encode_counted(item, values.deep_view(), n) is Ok
                &&& final(out)@ == old(out)@ + spec_encode_counted(
                    item,
                    values.deep_view(),
                    n,
                )->Ok_0
            },
            Err(e) => {
                &&& spec_encode_counted(item, values.deep_view(), n) == Err::<Seq<u8>, _>(e)
                &&& final(out)@ == old(out)@
            },
        },
{
    let count = values.len();
    if count != n {
        return Err(Error::Length { obtained: count, expected: n });
    }
    encode_items(item, values, out)
}

} // verus!
