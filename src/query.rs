//! Query strings: `key=value` pairs joined by `&`, both sides
//! percent-encoded, and the OAuth callback parameters taken from them.
use vstd::prelude::*;

use crate::bytes::{
    ascii_bytes, ascii_of, bytes_eq, copy_range, find, find_byte, split, split_bytes, views,
};
use crate::percent::{decode, decode_range, percent_decode};

verus! {

/// The byte `&`, which separates pairs.
pub const AMPERSAND: u8 = 38;

/// The byte `=`, which separates a key from its value.
pub const EQUALS: u8 = 61;

/// The byte `?`, which starts the query of a URL or request target.
pub const QUESTION: u8 = 63;

/// The path of a request target: everything before its first `?`.
pub open spec fn target_path(t: Seq<u8>) -> Seq<u8> {
    t.subrange(0, find(t, QUESTION) as int)
}

/// The query of a request target or URL: everything after its first `?`,
/// or nothing.
pub open spec fn target_query(t: Seq<u8>) -> Seq<u8> {
    let k = find(t, QUESTION);
    if k < t.len() {
        t.subrange(k as int + 1, t.len() as int)
    } else {
        Seq::empty()
    }
}

/// Splits a request target into its path and its query.
pub fn split_target(t: &[u8]) -> (r: (Vec<u8>, Vec<u8>))
    ensures
        r.0@ == target_path(t@),
        r.1@ == target_query(t@),
{
    let k = find_byte(t, 0, QUESTION);
    assert(t@.subrange(0, t@.len() as int) =~= t@);
    let path = copy_range(t, 0, k);
    if k < t.len() {
        (path, copy_range(t, k + 1, t.len()))
    } else {
        (path, Vec::new())
    }
}

/// One decoded `key=value` pair of a query string.
#[derive(Clone, Debug, PartialEq, Eq)]
pub struct QueryPair {
    pub key: Vec<u8>,
    pub value: Vec<u8>,
}

impl View for QueryPair {
    type V = (Seq<u8>, Seq<u8>);

    open spec fn view(&self) -> (Seq<u8>, Seq<u8>) {
        (self.key@, self.value@)
    }
}

/// The views of a sequence of pairs.
pub open spec fn pair_views(v: Seq<QueryPair>) -> Seq<(Seq<u8>, Seq<u8>)> {
    v.map_values(|p: QueryPair| p@)
}

/// The view of an optional byte vector.
pub open spec fn opt_view(o: Option<Vec<u8>>) -> Option<Seq<u8>> {
    match o {
        Some(v) => Some(v@),
        None => None,
    }
}

/// The pair that one non-empty piece between `&`s stands for: split at its
/// first `=`, or, without one, a key with an empty value.
pub open spec fn pair_of(seg: Seq<u8>) -> (Seq<u8>, Seq<u8>) {
    let e = find(seg, EQUALS);
    if e < seg.len() {
        (
            percent_decode(seg.subrange(0, e as int)),
            percent_decode(seg.subrange(e as int + 1, seg.len() as int)),
        )
    } else {
        (percent_decode(seg), Seq::empty())
    }
}

/// The pairs of the pieces in order, empty pieces skipped.
pub open spec fn pairs_of(segs: Seq<Seq<u8>>) -> Seq<(Seq<u8>, Seq<u8>)>
    decreases segs.len(),
{
    if segs.len() == 0 {
        Seq::empty()
    } else if segs.last().len() == 0 {
        pairs_of(segs.drop_last())
    } else {
        pairs_of(segs.drop_last()).push(pair_of(segs.last()))
    }
}

/// The pairs of a query string, in order.
pub open spec fn query_pairs(q: Seq<u8>) -> Seq<(Seq<u8>, Seq<u8>)> {
    pairs_of(split(q, AMPERSAND))
}

/// The value of the first pair with the given key.
pub open spec fn lookup(pairs: Seq<(Seq<u8>, Seq<u8>)>, key: Seq<u8>) -> Option<Seq<u8>>
    decreases pairs.len(),
{
    if pairs.len() == 0 {
        None
    } else if pairs[0].0 == key {
        Some(pairs[0].1)
    } else {
        lookup(pairs.drop_first(), key)
    }
}

/// Pairs of consecutive pieces are the pairs of each, in order.
pub proof fn lemma_pairs_of_concat(a: Seq<Seq<u8>>, b: Seq<Seq<u8>>)
    ensures
        pairs_of(a + b) == pairs_of(a) + pairs_of(b),
    decreases b.len(),
{
    if b.len() == 0 {
        assert(a + b =~= a);
        assert(pairs_of(a) + pairs_of(b) =~= pairs_of(a));
    } else {
        assert((a + b).drop_last() =~= a + b.drop_last());
        assert((a + b).last() == b.last());
        lemma_pairs_of_concat(a, b.drop_last());
        if b.last().len() == 0 {
        } else {
            assert(pairs_of(a + b) =~= pairs_of(a) + pairs_of(b));
        }
    }
}

/// A first pair with a different key does not change a lookup.
pub proof fn lemma_lookup_skip(p: (Seq<u8>, Seq<u8>), rest: Seq<(Seq<u8>, Seq<u8>)>, key: Seq<u8>)
    requires
        p.0 != key,
    ensures
        lookup(seq![p] + rest, key) == lookup(rest, key),
{
    assert((seq![p] + rest).drop_first() =~= rest);
}

/// A first pair with the key decides a lookup.
pub proof fn lemma_lookup_first(p: (Seq<u8>, Seq<u8>), rest: Seq<(Seq<u8>, Seq<u8>)>)
    ensures
        lookup(seq![p] + rest, p.0) == Some(p.1),
{
    assert((seq![p] + rest)[0] == p);
}

/// Parses one non-empty piece between `&`s (see `pair_of`).
pub fn parse_pair(seg: &[u8]) -> (r: QueryPair)
    ensures
        r@ == pair_of(seg@),
{
    let e = find_byte(seg, 0, EQUALS);
    assert(seg@.subrange(0, seg@.len() as int) =~= seg@);
    if e < seg.len() {
        QueryPair { key: decode_range(seg, 0, e), value: decode_range(seg, e + 1, seg.len()) }
    } else {
        QueryPair { key: decode(seg), value: Vec::new() }
    }
}

/// Parses a query string into its decoded pairs, in order.
pub fn parse_query(q: &[u8]) -> (r: Vec<QueryPair>)
    ensures
        pair_views(r@) == query_pairs(q@),
{
    let segs = split_bytes(q, AMPERSAND);
    let ghost sv = views(segs@);
    let mut out: Vec<QueryPair> = Vec::new();
    let mut i: usize = 0;
    while i < segs.len()
        invariant
            sv == views(segs@),
            sv == split(q@, AMPERSAND),
            i <= segs@.len(),
            pair_views(out@) == pairs_of(sv.subrange(0, i as int)),
        decreases segs@.len() - i,
    {
        let seg = &segs[i];
        proof {
            assert(sv.subrange(0, i as int + 1).drop_last() =~= sv.subrange(0, i as int));
            assert(sv.subrange(0, i as int + 1).last() == seg@);
        }
        if seg.len() > 0 {
            let p = parse_pair(seg.as_slice());
            let ghost prev = out@;
            out.push(p);
            assert(pair_views(out@) =~= pair_views(prev).push(p@));
        }
        i += 1;
    }
    assert(sv.subrange(0, sv.len() as int) =~= sv);
    out
}

/// The value of the first pair whose key is `key`.
pub fn find_value(pairs: &Vec<QueryPair>, key: &[u8]) -> (r: Option<Vec<u8>>)
    ensures
        opt_view(r) == lookup(pair_views(pairs@), key@),
{
    let ghost pv = pair_views(pairs@);
    assert(pv.subrange(0, pv.len() as int) =~= pv);
    let mut i: usize = 0;
    while i < pairs.len()
        invariant
            pv == pair_views(pairs@),
            i <= pairs@.len(),
            lookup(pv.subrange(i as int, pv.len() as int), key@) == lookup(pv, key@),
        decreases pairs@.len() - i,
    {
        let ghost t = pv.subrange(i as int, pv.len() as int);
        assert(t[0] == pairs@[i as int]@);
        if bytes_eq(pairs[i].key.as_slice(), key) {
            let v = &pairs[i].value;
            return Some(copy_range(v.as_slice(), 0, v.len()));
        }
        assert(t.drop_first() =~= pv.subrange(i as int + 1, pv.len() as int));
        i += 1;
    }
    assert(pv.subrange(i as int, pv.len() as int) =~= Seq::<(Seq<u8>, Seq<u8>)>::empty());
    None
}

/// The value of the first query parameter of `url` named `key`.
pub fn query_param(url: &[u8], key: &[u8]) -> (r: Option<Vec<u8>>)
    ensures
        opt_view(r) == lookup(query_pairs(target_query(url@)), key@),
{
    let (_, query) = split_target(url);
    let pairs = parse_query(query.as_slice());
    find_value(&pairs, key)
}

/// The key of an authorization code.
pub open spec fn code_key() -> Seq<u8> {
    ascii_of("code"@)
}

/// The key of a provider-reported failure.
pub open spec fn error_key() -> Seq<u8> {
    ascii_of("error"@)
}

/// What a callback carries: an authorization code, a provider error, both
/// (the error decides), or neither (a malformed callback).
#[derive(Clone, Debug, PartialEq, Eq)]
pub struct CallbackPayload {
    pub code: Option<Vec<u8>>,
    pub error: Option<Vec<u8>>,
}

impl CallbackPayload {
    /// The code, as a sequence.
    pub open spec fn code_view(&self) -> Option<Seq<u8>> {
        opt_view(self.code)
    }

    /// The error, as a sequence.
    pub open spec fn error_view(&self) -> Option<Seq<u8>> {
        opt_view(self.error)
    }

    /// Whether the callback carries neither a code nor an error.
    pub fn is_empty(&self) -> (r: bool)
        ensures
            r == (self.code is None && self.error is None),
    {
        self.code.is_none() && self.error.is_none()
    }

    /// Whether the exchange failed: an error is present, with or without a code.
    pub fn is_failure(&self) -> (r: bool)
        ensures
            r == (self.error is Some),
    {
        self.error.is_some()
    }
}

/// The code of a callback with these pairs.
pub open spec fn code_of(pairs: Seq<(Seq<u8>, Seq<u8>)>) -> Option<Seq<u8>> {
    lookup(pairs, code_key())
}

/// The error of a callback with these pairs.
pub open spec fn error_of(pairs: Seq<(Seq<u8>, Seq<u8>)>) -> Option<Seq<u8>> {
    lookup(pairs, error_key())
}

/// Takes the callback parameters out of decoded pairs: the first `code` and
/// the first `error`; other keys are ignored.
pub fn extract(pairs: &Vec<QueryPair>) -> (r: CallbackPayload)
    ensures
        r.code_view() == code_of(pair_views(pairs@)),
        r.error_view() == error_of(pair_views(pairs@)),
{
    proof {
        reveal_strlit("code");
        reveal_strlit("error");
    }
    let code_name = ascii_bytes("code");
    let error_name = ascii_bytes("error");
    let code = find_value(pairs, code_name.as_slice());
    let error = find_value(pairs, error_name.as_slice());
    CallbackPayload { code, error }
}

/// Takes the callback parameters out of a raw query string.
pub fn callback_payload(query: &[u8]) -> (r: CallbackPayload)
    ensures
        r.code_view() == code_of(query_pairs(query@)),
        r.error_view() == error_of(query_pairs(query@)),
{
    let pairs = parse_query(query);
    extract(&pairs)
}

/// A query with a `code=x` pair, no earlier `code` and no `error` at all
/// gives a payload with code `x` and no error.
pub proof fn law_code_without_error(q: Seq<u8>, i: int, x: Seq<u8>)
    requires
        0 <= i < query_pairs(q).len(),
        query_pairs(q)[i] == (code_key(), x),
        forall|j: int| 0 <= j < i ==> (#[trigger] query_pairs(q)[j]).0 != code_key(),
        forall|j: int|
            0 <= j < query_pairs(q).len() ==> (#[trigger] query_pairs(q)[j]).0 != error_key(),
    ensures
        code_of(query_pairs(q)) == Some(x),
        error_of(query_pairs(q)) is None,
{
    lemma_lookup_at(query_pairs(q), code_key(), i);
    lemma_lookup_absent(query_pairs(q), error_key());
}

/// A query with an `error=y` pair and no earlier `error` gives a payload
/// with error `y`, whatever code comes with it.
pub proof fn law_error_decides(q: Seq<u8>, i: int, y: Seq<u8>)
    requires
        0 <= i < query_pairs(q).len(),
        query_pairs(q)[i] == (error_key(), y),
        forall|j: int| 0 <= j < i ==> (#[trigger] query_pairs(q)[j]).0 != error_key(),
    ensures
        error_of(query_pairs(q)) == Some(y),
{
    lemma_lookup_at(query_pairs(q), error_key(), i);
}

/// The first pair with the key gives the lookup's value.
pub proof fn lemma_lookup_at(pairs: Seq<(Seq<u8>, Seq<u8>)>, key: Seq<u8>, i: int)
    requires
        0 <= i < pairs.len(),
        pairs[i].0 == key,
        forall|j: int| 0 <= j < i ==> (#[trigger] pairs[j]).0 != key,
    ensures
        lookup(pairs, key) == Some(pairs[i].1),
    decreases i,
{
    if i > 0 {
        assert(pairs[0].0 != key);
        assert forall|j: int| 0 <= j < i - 1 implies (#[trigger] pairs.drop_first()[j]).0 != key by {
            assert(pairs.drop_first()[j] == pairs[j + 1]);
        }
        lemma_lookup_at(pairs.drop_first(), key, i - 1);
    }
}

/// A query with neither key gives an all-absent payload.
pub proof fn law_neither_key(q: Seq<u8>)
    requires
        forall|i: int|
            0 <= i < query_pairs(q).len() ==> (#[trigger] query_pairs(q)[i]).0 != code_key()
                && query_pairs(q)[i].0 != error_key(),
    ensures
        code_of(query_pairs(q)) is None,
        error_of(query_pairs(q)) is None,
{
    lemma_lookup_absent(query_pairs(q), code_key());
    lemma_lookup_absent(query_pairs(q), error_key());
}

/// A key that no pair has is looked up in vain.
pub proof fn lemma_lookup_absent(pairs: Seq<(Seq<u8>, Seq<u8>)>, key: Seq<u8>)
    requires
        forall|i: int| 0 <= i < pairs.len() ==> (#[trigger] pairs[i]).0 != key,
    ensures
        lookup(pairs, key) is None,
    decreases pairs.len(),
{
    if pairs.len() > 0 {
        assert(pairs[0].0 != key);
        assert forall|i: int| 0 <= i < pairs.drop_first().len() implies (
        #[trigger] pairs.drop_first()[i]).0 != key by {
            assert(pairs.drop_first()[i] == pairs[i + 1]);
        }
        lemma_lookup_absent(pairs.drop_first(), key);
    }
}

} // verus!
