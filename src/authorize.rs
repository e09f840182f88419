//! The provider authorization URL that the browser is sent to: the client
//! id, the redirect URI, the response type and the scopes as percent-encoded
//! query parameters.
use vstd::prelude::*;

use crate::bytes::{
    append_bytes, ascii_bytes, ascii_of, find, lemma_find_concat, lemma_split_concat, split, views,
};
use crate::config::{redirect_uri_spec, ServerConfig};
use crate::percent::{
    encode_into, is_unreserved, lemma_decode_encode, lemma_decode_plain, lemma_encode_bytes,
    percent_encode, PERCENT,
};
use crate::query::{
    lemma_lookup_first, lemma_lookup_skip, lemma_pairs_of_concat, lookup, pair_of, pairs_of,
    query_pairs, target_query, AMPERSAND, EQUALS, QUESTION,
};

verus! {

/// The byte ` `, which separates scopes.
pub const SPACE: u8 = 32;

/// The OAuth flow asked for.
#[derive(Clone, Copy, Debug, PartialEq, Eq, Structural)]
pub enum ResponseType {
    /// Authorization-code flow: the provider redirects with `code`.
    Code,
    /// Implicit flow: the provider redirects with a token in the fragment.
    Token,
}

/// The value of the `response_type` parameter.
pub open spec fn response_type_value(rt: ResponseType) -> Seq<u8> {
    match rt {
        ResponseType::Code => ascii_of("code"@),
        ResponseType::Token => ascii_of("token"@),
    }
}

/// The key `client_id`.
pub open spec fn client_id_key() -> Seq<u8> {
    ascii_of("client_id"@)
}

/// The key `redirect_uri`.
pub open spec fn redirect_uri_key() -> Seq<u8> {
    ascii_of("redirect_uri"@)
}

/// The key `response_type`.
pub open spec fn response_type_key() -> Seq<u8> {
    ascii_of("response_type"@)
}

/// The key `scope`.
pub open spec fn scope_key() -> Seq<u8> {
    ascii_of("scope"@)
}

/// Scopes joined by single spaces.
pub open spec fn join_scopes(s: Seq<Seq<u8>>) -> Seq<u8>
    decreases s.len(),
{
    if s.len() == 0 {
        Seq::empty()
    } else if s.len() == 1 {
        s[0]
    } else {
        join_scopes(s.drop_last()) + seq![SPACE] + s.last()
    }
}

/// One `key=value` parameter, the value percent-encoded.
pub open spec fn param(key: Seq<u8>, value: Seq<u8>) -> Seq<u8> {
    key + seq![EQUALS] + percent_encode(value)
}

/// The query of an authorization URL.
pub open spec fn authorization_query(
    client_id: Seq<u8>,
    redirect_uri: Seq<u8>,
    rt: ResponseType,
    scopes: Seq<Seq<u8>>,
) -> Seq<u8> {
    param(client_id_key(), client_id) + seq![AMPERSAND] + param(redirect_uri_key(), redirect_uri)
        + seq![AMPERSAND] + response_type_key() + seq![EQUALS] + response_type_value(rt) + seq![
        AMPERSAND,
    ] + param(scope_key(), join_scopes(scopes))
}

/// `?` before the query, or `&` where the endpoint already has a query.
pub open spec fn query_separator(endpoint: Seq<u8>) -> u8 {
    if endpoint.contains(QUESTION) {
        AMPERSAND
    } else {
        QUESTION
    }
}

/// The authorization URL for an endpoint.
pub open spec fn authorization_url_spec(
    endpoint: Seq<u8>,
    client_id: Seq<u8>,
    redirect_uri: Seq<u8>,
    rt: ResponseType,
    scopes: Seq<Seq<u8>>,
) -> Seq<u8> {
    endpoint + seq![query_separator(endpoint)] + authorization_query(
        client_id,
        redirect_uri,
        rt,
        scopes,
    )
}

/// Joins scopes with single spaces.
pub fn scope_list(scopes: &Vec<Vec<u8>>) -> (r: Vec<u8>)
    ensures
        r@ == join_scopes(views(scopes@)),
{
    let ghost sv = views(scopes@);
    let mut out: Vec<u8> = Vec::new();
    let mut i: usize = 0;
    while i < scopes.len()
        invariant
            sv == views(scopes@),
            i <= scopes@.len(),
            out@ == join_scopes(sv.subrange(0, i as int)),
        decreases scopes@.len() - i,
    {
        let ghost sub = sv.subrange(0, i as int + 1);
        assert(sub.drop_last() =~= sv.subrange(0, i as int));
        assert(sub.last() == scopes@[i as int]@);
        if i > 0 {
            out.push(SPACE);
        }
        append_bytes(&mut out, scopes[i].as_slice());
        if i == 0 {
            assert(out@ =~= sub[0]);
        }
        i += 1;
    }
    assert(sv.subrange(0, sv.len() as int) =~= sv);
    out
}

fn push_param(out: &mut Vec<u8>, key: &str, value: &[u8])
    requires
        key.is_ascii(),
    ensures
        final(out)@ == old(out)@ + param(ascii_of(key@), value@),
{
    let k = ascii_bytes(key);
    append_bytes(out, k.as_slice());
    out.push(EQUALS);
    encode_into(out, value);
    assert(final(out)@ =~= old(out)@ + param(ascii_of(key@), value@));
}

/// Builds the authorization URL: the endpoint, then `client_id`,
/// `redirect_uri`, `response_type` and `scope` (the scopes joined by
/// spaces), each value percent-encoded.
pub fn authorization_url(
    endpoint: &[u8],
    client_id: &[u8],
    redirect_uri: &[u8],
    rt: ResponseType,
    scopes: &Vec<Vec<u8>>,
) -> (r: Vec<u8>)
    ensures
        r@ == authorization_url_spec(endpoint@, client_id@, redirect_uri@, rt, views(scopes@)),
{
    proof {
        reveal_strlit("client_id");
        reveal_strlit("redirect_uri");
        reveal_strlit("response_type");
        reveal_strlit("scope");
        reveal_strlit("code");
        reveal_strlit("token");
    }
    let mut out: Vec<u8> = Vec::new();
    append_bytes(&mut out, endpoint);
    let mut has_query = false;
    let mut i: usize = 0;
    while i < endpoint.len()
        invariant
            i <= endpoint@.len(),
            has_query == exists|j: int| 0 <= j < i && endpoint@[j] == QUESTION,
        decreases endpoint@.len() - i,
    {
        if endpoint[i] == QUESTION {
            has_query = true;
        }
        i += 1;
    }
    out.push(if has_query {
        AMPERSAND
    } else {
        QUESTION
    });
    push_param(&mut out, "client_id", client_id);
    out.push(AMPERSAND);
    push_param(&mut out, "redirect_uri", redirect_uri);
    out.push(AMPERSAND);
    let value = match rt {
        ResponseType::Code => ascii_bytes("code"),
        ResponseType::Token => ascii_bytes("token"),
    };
    let key = ascii_bytes("response_type");
    append_bytes(&mut out, key.as_slice());
    out.push(EQUALS);
    append_bytes(&mut out, value.as_slice());
    out.push(AMPERSAND);
    let scope = scope_list(scopes);
    push_param(&mut out, "scope", scope.as_slice());
    assert(out@ =~= authorization_url_spec(
        endpoint@,
        client_id@,
        redirect_uri@,
        rt,
        views(scopes@),
    ));
    out
}

impl ServerConfig {
    /// The authorization URL whose redirect URI is this server's own, so
    /// that the registered URI, the bound address and the callback route
    /// come from one configuration.
    pub fn authorization_url(
        &self,
        endpoint: &[u8],
        client_id: &[u8],
        rt: ResponseType,
        scopes: &Vec<Vec<u8>>,
    ) -> (r: Vec<u8>)
        ensures
            r@ == authorization_url_spec(
                endpoint@,
                client_id@,
                redirect_uri_spec(self.port, self.callback_prefix@),
                rt,
                views(scopes@),
            ),
    {
        let redirect = self.redirect_uri();
        authorization_url(endpoint, client_id, redirect.as_slice(), rt, scopes)
    }
}

/// No byte of an encoding is one that encoding always escapes.
pub proof fn lemma_encode_lacks(s: Seq<u8>, b: u8)
    requires
        !is_unreserved(b),
        b != PERCENT,
    ensures
        !percent_encode(s).contains(b),
{
    lemma_encode_bytes(s);
}

/// Neither part lacking `b`, their concatenation lacks it.
pub proof fn lemma_concat_lacks(x: Seq<u8>, y: Seq<u8>, b: u8)
    requires
        !x.contains(b),
        !y.contains(b),
    ensures
        !(x + y).contains(b),
{
    assert forall|i: int| 0 <= i < (x + y).len() implies (x + y)[i] != b by {
        if i < x.len() {
            assert((x + y)[i] == x[i]);
        } else {
            assert((x + y)[i] == y[i - x.len()]);
        }
    }
}

/// A parameter whose key has no `=`, `&` or `%` parses back to its key and
/// value.
pub proof fn lemma_param_pair(key: Seq<u8>, value: Seq<u8>)
    requires
        !key.contains(EQUALS),
        !key.contains(AMPERSAND),
        !key.contains(PERCENT),
    ensures
        pair_of(param(key, value)) == (key, value),
        !param(key, value).contains(AMPERSAND),
        param(key, value).len() > 0,
{
    let p = param(key, value);
    let tail = seq![EQUALS] + percent_encode(value);
    assert(p =~= key + tail);
    lemma_find_concat(key, tail, EQUALS);
    assert(tail[0] == EQUALS);
    assert(find(p, EQUALS) == key.len());
    assert(p.subrange(0, key.len() as int) =~= key);
    assert(p.subrange(key.len() as int + 1, p.len() as int) =~= percent_encode(value));
    lemma_decode_plain(key);
    lemma_decode_encode(value);
    lemma_encode_lacks(value, AMPERSAND);
    assert(!seq![EQUALS].contains(AMPERSAND)) by {
        assert(seq![EQUALS][0] != AMPERSAND);
    }
    lemma_concat_lacks(seq![EQUALS], percent_encode(value), AMPERSAND);
    lemma_concat_lacks(key, tail, AMPERSAND);
}

/// Parsing an authorization URL back recovers the client id and the
/// redirect URI unchanged.
pub proof fn law_authorization_round_trip(
    endpoint: Seq<u8>,
    client_id: Seq<u8>,
    redirect_uri: Seq<u8>,
    rt: ResponseType,
    scopes: Seq<Seq<u8>>,
)
    requires
        !endpoint.contains(QUESTION),
    ensures
        lookup(
            query_pairs(
                target_query(authorization_url_spec(endpoint, client_id, redirect_uri, rt, scopes)),
            ),
            client_id_key(),
        ) == Some(client_id),
        lookup(
            query_pairs(
                target_query(authorization_url_spec(endpoint, client_id, redirect_uri, rt, scopes)),
            ),
            redirect_uri_key(),
        ) == Some(redirect_uri),
{
    reveal_strlit("client_id");
    reveal_strlit("redirect_uri");
    let kc = client_id_key();
    let kr = redirect_uri_key();
    assert(kc =~= seq![99u8, 108, 105, 101, 110, 116, 95, 105, 100]);
    assert(kr =~= seq![114u8, 101, 100, 105, 114, 101, 99, 116, 95, 117, 114, 105]);
    assert(!kc.contains(EQUALS) && !kc.contains(AMPERSAND) && !kc.contains(PERCENT));
    assert(!kr.contains(EQUALS) && !kr.contains(AMPERSAND) && !kr.contains(PERCENT));
    let a = param(kc, client_id);
    let b = param(kr, redirect_uri);
    let rest = response_type_key() + seq![EQUALS] + response_type_value(rt) + seq![AMPERSAND]
        + param(scope_key(), join_scopes(scopes));
    let q = authorization_query(client_id, redirect_uri, rt, scopes);
    assert(q =~= a + seq![AMPERSAND] + (b + seq![AMPERSAND] + rest));
    let url = authorization_url_spec(endpoint, client_id, redirect_uri, rt, scopes);
    let tail = seq![QUESTION] + q;
    assert(url =~= endpoint + tail);
    lemma_find_concat(endpoint, tail, QUESTION);
    assert(tail[0] == QUESTION);
    assert(find(url, QUESTION) == endpoint.len());
    assert(target_query(url) =~= q);
    lemma_param_pair(kc, client_id);
    lemma_param_pair(kr, redirect_uri);
    lemma_split_concat(a, b + seq![AMPERSAND] + rest, AMPERSAND);
    lemma_split_concat(b, rest, AMPERSAND);
    let tail_segs = split(rest, AMPERSAND);
    assert(split(q, AMPERSAND) =~= seq![a] + (seq![b] + tail_segs));
    lemma_pairs_of_concat(seq![a], seq![b] + tail_segs);
    lemma_pairs_of_concat(seq![b], tail_segs);
    assert(seq![a].drop_last() =~= Seq::<Seq<u8>>::empty());
    assert(seq![b].drop_last() =~= Seq::<Seq<u8>>::empty());
    assert(seq![a].last() == a);
    assert(seq![b].last() == b);
    assert(pairs_of(Seq::<Seq<u8>>::empty()) == Seq::<(Seq<u8>, Seq<u8>)>::empty());
    assert(pairs_of(seq![a]) =~= seq![(kc, client_id)]);
    assert(pairs_of(seq![b]) =~= seq![(kr, redirect_uri)]);
    let rest_pairs = pairs_of(tail_segs);
    assert(query_pairs(q) =~= seq![(kc, client_id)] + (seq![(kr, redirect_uri)] + rest_pairs));
    lemma_lookup_first((kc, client_id), seq![(kr, redirect_uri)] + rest_pairs);
    assert(kc.len() != kr.len());
    lemma_lookup_skip((kc, client_id), seq![(kr, redirect_uri)] + rest_pairs, kr);
    lemma_lookup_first((kr, redirect_uri), rest_pairs);
}

} // verus!
