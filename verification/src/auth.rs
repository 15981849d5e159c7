//! Signing in through the browser: the authorization code flow with a proof key,
//! and what is kept of it in the browser's storage.
use crate::encoding::{
    base64url, can_decode, dec, decodable, decode_base64, decoded_text, enc, encoded, random_b64url, sha256, sha256_b64url,
};
use crate::json::{member, parse_json, parse_json_bytes, parsed_bytes, parsed_json, Json, JsonView};
use crate::text::{
    begins, chars_of, decimal, parts, push_decimal, push_str, same_str, slice_of, split, strip_prefix, text_of, views,
};
use vstd::prelude::*;
use vstd::utf8::encode_utf8;

verus! {

broadcast use {vstd::seq::group_seq_axioms, vstd::string::group_string_axioms};

/// The public client that the sign-in service knows.
pub const CLIENT_ID: &'static str = "client_033aGOIb0qVHD1QceoUysS";

pub const AUTH_ENDPOINT: &'static str = "https://auth.spacetimedb.com/oidc/auth";

pub const TOKEN_ENDPOINT: &'static str = "https://auth.spacetimedb.com/oidc/token";

pub const SCOPES: &'static str = "openid profile";

/// The key of the session's token in the browser's lasting storage.
pub const TOKEN_KEY: &'static str = "stdb-lightshow-token";

/// The key of the display name in the browser's lasting storage.
pub const USERNAME_KEY: &'static str = "stdb-lightshow-username";

/// The key of the proof key's verifier in the tab's storage.
pub const SS_VERIFIER: &'static str = "oidc_pkce_verifier";

/// The key of the request's state in the tab's storage.
pub const SS_STATE: &'static str = "oidc_state";

// ---- storage ----------------------------------------------------------------

/// One change to a storage of the browser.
#[derive(Debug)]
pub enum StorageOp {
    Put { key: &'static str, value: String },
    Remove { key: &'static str },
}

/// A storage after one change.
pub open spec fn stored_after(s: Map<Seq<char>, Seq<char>>, op: StorageOp) -> Map<Seq<char>, Seq<char>> {
    match op {
        StorageOp::Put { key, value } => s.insert(key@, value@),
        StorageOp::Remove { key } => s.remove(key@),
    }
}

/// A storage after several changes.
pub open spec fn storage_after(s: Map<Seq<char>, Seq<char>>, ops: Seq<StorageOp>) -> Map<Seq<char>, Seq<char>>
    decreases ops.len(),
{
    if ops.len() == 0 {
        s
    } else {
        stored_after(storage_after(s, ops.drop_last()), ops.last())
    }
}

/// What a storage holds under a key, unless it is empty.
pub open spec fn kept(s: Map<Seq<char>, Seq<char>>, key: Seq<char>) -> Option<Seq<char>> {
    if s.contains_key(key) && s[key].len() > 0 {
        Some(s[key])
    } else {
        None
    }
}

/// The change to the lasting storage that keeps the session's token.
pub fn store_token(token: &str) -> (r: StorageOp)
    ensures
        r matches StorageOp::Put { key, value } && key@ == TOKEN_KEY@ && value@ == token@,
{
    StorageOp::Put { key: TOKEN_KEY, value: token.to_owned() }
}

fn filled(value: Option<String>) -> (r: Option<String>)
    ensures
        r == (if value is Some && value->0@.len() > 0 {
            value
        } else {
            None
        }),
{
    match value {
        Some(t) => {
            if t.as_str().is_empty() {
                None
            } else {
                Some(t)
            }
        },
        None => None,
    }
}

/// The session's token, from what the lasting storage holds under [`TOKEN_KEY`]: an
/// empty one is none.
pub fn stored_token(value: Option<String>) -> (r: Option<String>)
    ensures
        r == (if value is Some && value->0@.len() > 0 {
            value
        } else {
            None
        }),
{
    filled(value)
}

/// The display name, from what the lasting storage holds under [`USERNAME_KEY`]: an
/// empty one is none.
pub fn stored_username(value: Option<String>) -> (r: Option<String>)
    ensures
        r == (if value is Some && value->0@.len() > 0 {
            value
        } else {
            None
        }),
{
    filled(value)
}

/// The changes to the lasting storage that forget the session.
pub fn clear_token() -> (r: Vec<StorageOp>)
    ensures
        r@ == seq![StorageOp::Remove { key: TOKEN_KEY }, StorageOp::Remove { key: USERNAME_KEY }],
{
    let mut ops: Vec<StorageOp> = Vec::new();
    ops.push(StorageOp::Remove { key: TOKEN_KEY });
    ops.push(StorageOp::Remove { key: USERNAME_KEY });
    ops
}

/// The changes to the tab's storage that drop the values of a sign-in.
pub fn clear_session() -> (r: Vec<StorageOp>)
    ensures
        r@ == seq![StorageOp::Remove { key: SS_VERIFIER }, StorageOp::Remove { key: SS_STATE }],
{
    let mut ops: Vec<StorageOp> = Vec::new();
    ops.push(StorageOp::Remove { key: SS_VERIFIER });
    ops.push(StorageOp::Remove { key: SS_STATE });
    ops
}

/// The changes that sign out: to the lasting storage, and to the tab's.
pub fn logout() -> (r: (Vec<StorageOp>, Vec<StorageOp>))
    ensures
        r.0@ == seq![StorageOp::Remove { key: TOKEN_KEY }, StorageOp::Remove { key: USERNAME_KEY }],
        r.1@ == seq![StorageOp::Remove { key: SS_VERIFIER }, StorageOp::Remove { key: SS_STATE }],
{
    (clear_token(), clear_session())
}

/// A token that was stored is found again, and signing out forgets it and the name.
pub proof fn law_token_storage(s: Map<Seq<char>, Seq<char>>, store: StorageOp, clear: Seq<StorageOp>)
    requires
        store matches StorageOp::Put { key, value } && key@ == TOKEN_KEY@,
        clear == seq![StorageOp::Remove { key: TOKEN_KEY }, StorageOp::Remove { key: USERNAME_KEY }],
    ensures
        kept(stored_after(s, store), TOKEN_KEY@) == (if store->Put_value@.len() > 0 {
            Some(store->Put_value@)
        } else {
            None
        }),
        kept(storage_after(s, clear), TOKEN_KEY@) is None,
        kept(storage_after(s, clear), USERNAME_KEY@) is None,
{
    reveal_with_fuel(storage_after, 3);
    assert(clear.drop_last() =~= seq![StorageOp::Remove { key: TOKEN_KEY }]);
    assert(clear.drop_last().drop_last() =~= Seq::<StorageOp>::empty());
}

// ---- the display name -------------------------------------------------------

/// The claims of a token that may hold a name, in order of preference.
pub open spec fn name_claims() -> Seq<Seq<char>> {
    seq!["preferred_username"@, "nickname"@, "name"@, "given_name"@]
}

/// The claim as a text that is not empty.
pub open spec fn claim_text(claims: JsonView, key: Seq<char>) -> Option<Seq<char>> {
    match member(claims, key) {
        Some(JsonView::Text(t)) => if t.len() > 0 {
            Some(t)
        } else {
            None
        },
        _ => None,
    }
}

/// The name in a token's claims: the first that is not empty.
pub open spec fn claimed_name(claims: JsonView) -> Option<Seq<char>> {
    if claim_text(claims, name_claims()[0]) is Some {
        claim_text(claims, name_claims()[0])
    } else if claim_text(claims, name_claims()[1]) is Some {
        claim_text(claims, name_claims()[1])
    } else if claim_text(claims, name_claims()[2]) is Some {
        claim_text(claims, name_claims()[2])
    } else {
        claim_text(claims, name_claims()[3])
    }
}

/// The display name in a token's second part, which is JSON in base64.
pub open spec fn is_username(token: Seq<char>, name: Option<Seq<char>>) -> bool {
    let ps = parts(token, '.');
    if ps.len() < 2 {
        name is None
    } else if exists|b: Seq<u8>| #[trigger] base64url(b) == ps[1] {
        exists|b: Seq<u8>| #[trigger]
            base64url(b) == ps[1] && name == (match parsed_bytes(b) {
                Some(claims) => claimed_name(claims),
                None => None,
            })
    } else {
        name is None
    }
}

/// The text of an optional string.
pub open spec fn text_in(s: Option<String>) -> Option<Seq<char>> {
    match s {
        Some(s) => Some(s@),
        None => None,
    }
}

fn claim(claims: &Json, key: &str) -> (r: Option<String>)
    ensures
        text_in(r) == claim_text(claims@, key@),
{
    match claims.get(key) {
        Some(Json::Text(t)) => {
            if t.as_str().is_empty() {
                None
            } else {
                Some(t.clone())
            }
        },
        _ => None,
    }
}

/// The name in a token's claims.
pub fn username_in(claims: &Json) -> (r: Option<String>)
    ensures
        text_in(r) == claimed_name(claims@),
{
    let a: Option<String> = claim(claims, "preferred_username");
    if a.is_some() {
        return a;
    }
    let b: Option<String> = claim(claims, "nickname");
    if b.is_some() {
        return b;
    }
    let c: Option<String> = claim(claims, "name");
    if c.is_some() {
        return c;
    }
    claim(claims, "given_name")
}

/// The display name in a token: see [`is_username`].
pub fn extract_username(id_token: &str) -> (r: Option<String>)
    ensures
        is_username(id_token@, text_in(r)),
{
    let ps: Vec<Vec<char>> = split(&chars_of(id_token), '.');
    let ghost all = views(ps@);
    assert(all == parts(id_token@, '.'));
    if ps.len() < 2 {
        return None;
    }
    assert(all[1] == ps@[1]@);
    let payload: String = text_of(&ps[1]);
    let bytes: Vec<u8> = match decode_base64(payload.as_str()) {
        Some(b) => b,
        None => {
            return None;
        },
    };
    assert(base64url(bytes@) == all[1]);
    match parse_json_bytes(&bytes) {
        Some(claims) => username_in(&claims),
        None => None,
    }
}

// ---- the request ------------------------------------------------------------

/// The text of an optional string slice.
pub open spec fn str_in(s: Option<&str>) -> Option<Seq<char>> {
    match s {
        Some(s) => Some(s@),
        None => None,
    }
}

/// Where the service sends the browser back to: the origin, with a slash.
pub open spec fn redirect_of(origin: Option<Seq<char>>) -> Seq<char> {
    match origin {
        Some(o) => o + "/"@,
        None => Seq::empty(),
    }
}

/// Where the service sends the browser back to.
pub fn redirect_uri(origin: Option<&str>) -> (r: String)
    ensures
        r@ == redirect_of(str_in(origin)),
{
    match origin {
        Some(o) => {
            let mut v: Vec<char> = chars_of(o);
            push_str(&mut v, "/");
            text_of(&v)
        },
        None => String::new(),
    }
}

/// The address that a sign-in begins at.
pub open spec fn login_address(redirect: Seq<char>, state: Seq<char>, challenge: Seq<char>) -> Seq<char> {
    AUTH_ENDPOINT@ + "?response_type=code&client_id="@ + encoded(CLIENT_ID@) + "&redirect_uri="@ + encoded(redirect) + "&scope="@
        + encoded(SCOPES@) + "&state="@ + encoded(state) + "&code_challenge="@ + encoded(challenge)
        + "&code_challenge_method=S256"@
}

/// The address that a sign-in begins at.
pub fn login_url(redirect: &str, state: &str, challenge: &str) -> (r: String)
    ensures
        r@ == login_address(redirect@, state@, challenge@),
{
    let mut v: Vec<char> = chars_of(AUTH_ENDPOINT);
    push_str(&mut v, "?response_type=code&client_id=");
    push_str(&mut v, enc(CLIENT_ID).as_str());
    push_str(&mut v, "&redirect_uri=");
    push_str(&mut v, enc(redirect).as_str());
    push_str(&mut v, "&scope=");
    push_str(&mut v, enc(SCOPES).as_str());
    push_str(&mut v, "&state=");
    push_str(&mut v, enc(state).as_str());
    push_str(&mut v, "&code_challenge=");
    push_str(&mut v, enc(challenge).as_str());
    push_str(&mut v, "&code_challenge_method=S256");
    text_of(&v)
}

/// A sign-in that is ready to begin: what to keep in the tab's storage, and where
/// to go.
#[derive(Debug)]
pub struct Login {
    pub keep: Vec<StorageOp>,
    pub url: String,
}

/// The sign-in with these random values, sent back to this address.
pub open spec fn is_login(l: Login, redirect: Seq<char>, verifier: Seq<char>, state: Seq<char>) -> bool {
    &&& l.keep@.len() == 2
    &&& l.keep@[0] matches StorageOp::Put { key, value } && key@ == SS_VERIFIER@ && value@ == verifier
    &&& l.keep@[1] matches StorageOp::Put { key, value } && key@ == SS_STATE@ && value@ == state
    &&& l.url@ == login_address(redirect, state, base64url(sha256(encode_utf8(verifier))))
}

/// The sign-in with these random values.
pub fn login_with(origin: Option<&str>, verifier: String, state: String) -> (r: Login)
    ensures
        is_login(r, redirect_of(str_in(origin)), verifier@, state@),
{
    let challenge: String = sha256_b64url(verifier.as_str());
    let redirect: String = redirect_uri(origin);
    let url: String = login_url(redirect.as_str(), state.as_str(), challenge.as_str());
    let mut keep: Vec<StorageOp> = Vec::new();
    keep.push(StorageOp::Put { key: SS_VERIFIER, value: verifier });
    keep.push(StorageOp::Put { key: SS_STATE, value: state });
    Login { keep, url }
}

/// The text is so many bytes in base64.
pub open spec fn holds_bytes(t: Seq<char>, n: int) -> bool {
    exists|b: Seq<u8>| b.len() == n && t == #[trigger] base64url(b)
}

/// The sign-in with some proof key of 32 bytes and some state of 16.
pub open spec fn is_fresh_login(l: Login, redirect: Seq<char>) -> bool {
    exists|verifier: Seq<char>, state: Seq<char>|
        holds_bytes(verifier, 32) && holds_bytes(state, 16) && #[trigger] is_login(l, redirect, verifier, state)
}

/// Begins a sign-in with a new proof key of 32 random bytes and a new state of 16;
/// none where the machine has no source of random bytes.
pub fn login(origin: Option<&str>) -> (r: Option<Login>)
    ensures
        r matches Some(l) ==> is_fresh_login(l, redirect_of(str_in(origin))),
{
    let verifier: String = match random_b64url(32) {
        Some(v) => v,
        None => {
            return None;
        },
    };
    let state: String = match random_b64url(16) {
        Some(s) => s,
        None => {
            return None;
        },
    };
    assert(holds_bytes(verifier@, 32));
    assert(holds_bytes(state@, 16));
    let ghost v = verifier@;
    let ghost s = state@;
    let l: Login = login_with(origin, verifier, state);
    assert(is_login(l, redirect_of(str_in(origin)), v, s));
    assert(is_fresh_login(l, redirect_of(str_in(origin))));
    Some(l)
}

// ---- the answer -------------------------------------------------------------

/// The place of the first character of this kind.
pub open spec fn first_at(s: Seq<char>, c: char) -> Option<int>
    decreases s.len(),
{
    if s.len() == 0 {
        None
    } else {
        match first_at(s.drop_last(), c) {
            Some(i) => Some(i),
            None => if s.last() == c {
                Some(s.len() - 1)
            } else {
                None
            },
        }
    }
}

/// The name of a query's pair: what stands before the first equals sign.
pub open spec fn pair_key(pair: Seq<char>) -> Seq<char> {
    match first_at(pair, '=') {
        Some(i) => pair.take(i),
        None => pair,
    }
}

/// The value of a query's pair: what stands behind the first equals sign.
pub open spec fn pair_value(pair: Seq<char>) -> Seq<char> {
    match first_at(pair, '=') {
        Some(i) => pair.skip(i + 1),
        None => Seq::empty(),
    }
}

/// The value of a key in a query, decoded; of several the last.
pub open spec fn query_value(pairs: Seq<Seq<char>>, key: Seq<char>) -> Option<Seq<char>>
    decreases pairs.len(),
{
    if pairs.len() == 0 {
        None
    } else if pair_key(pairs.last()) == key {
        Some(decoded_text(pair_value(pairs.last())))
    } else {
        query_value(pairs.drop_last(), key)
    }
}

/// The pairs of a query, with or without its question mark.
pub open spec fn query_pairs(search: Seq<char>) -> Seq<Seq<char>> {
    parts(
        if begins(search, "?"@) {
            search.skip(1)
        } else {
            search
        },
        '&',
    )
}

/// The code in the service's answer: only where the answer carries the state that
/// the sign-in was begun with.
pub open spec fn answered_code(search: Seq<char>, state: Option<Seq<char>>) -> Option<Seq<char>> {
    let pairs = query_pairs(search);
    if search.len() > 0 && query_value(pairs, "state"@) is Some && query_value(pairs, "state"@) == state {
        query_value(pairs, "code"@)
    } else {
        None
    }
}

/// The values that are read can be decoded.
pub open spec fn readable(pairs: Seq<Seq<char>>) -> bool {
    forall|i: int|
        0 <= i < pairs.len() && (pair_key(#[trigger] pairs[i]) == "code"@ || pair_key(pairs[i]) == "state"@) ==> decodable(
            encode_utf8(pair_value(pairs[i])),
        )
}

fn find_equals(v: &Vec<char>) -> (r: Option<usize>)
    ensures
        match r {
            Some(i) => first_at(v@, '=') == Some(i as int) && i < v@.len(),
            None => first_at(v@, '=') is None,
        },
{
    let mut i: usize = 0;
    assert(first_at(v@.take(0), '=') is None);
    while i < v.len()
        invariant
            i <= v@.len(),
            first_at(v@.take(i as int), '=') is None,
        decreases v@.len() - i,
    {
        if v[i] == '=' {
            proof {
                lemma_first_at(v@, '=', i as int);
            }
            return Some(i);
        }
        assert(v@.take(i + 1).drop_last() =~= v@.take(i as int));
        i = i + 1;
    }
    assert(v@.take(v@.len() as int) =~= v@);
    None
}

proof fn lemma_first_at(s: Seq<char>, c: char, i: int)
    requires
        0 <= i < s.len(),
        first_at(s.take(i), c) is None,
        s[i] == c,
    ensures
        first_at(s, c) == Some(i),
    decreases s.len(),
{
    if i == s.len() - 1 {
        assert(s.drop_last() =~= s.take(i));
    } else {
        assert(s.drop_last().take(i) =~= s.take(i));
        lemma_first_at(s.drop_last(), c, i);
    }
}

fn split_pair(pair: &Vec<char>) -> (r: (String, String))
    ensures
        r.0@ == pair_key(pair@),
        r.1@ == pair_value(pair@),
{
    match find_equals(pair) {
        Some(i) => {
            assert(i < pair.len());
            let k: Vec<char> = slice_of(pair, 0, i);
            let v: Vec<char> = slice_of(pair, i + 1, pair.len());
            assert(k@ =~= pair@.take(i as int));
            assert(v@ =~= pair@.skip(i + 1));
            (text_of(&k), text_of(&v))
        },
        None => (text_of(pair), String::new()),
    }
}

fn split_query(search: &str) -> (r: Vec<Vec<char>>)
    ensures
        views(r@) == query_pairs(search@),
{
    let all: Vec<char> = chars_of(search);
    proof {
        reveal_strlit("?");
    }
    match strip_prefix(&all, "?") {
        Some(rest) => split(&rest, '&'),
        None => split(&all, '&'),
    }
}

/// Whether [`pending_code`] takes a query: see [`readable`].
pub fn can_read(search: &str) -> (r: bool)
    ensures
        r == readable(query_pairs(search@)),
{
    let pairs: Vec<Vec<char>> = split_query(search);
    let ghost all = views(pairs@);
    let mut i: usize = 0;
    while i < pairs.len()
        invariant
            i <= pairs@.len(),
            all == views(pairs@),
            all == query_pairs(search@),
            forall|j: int|
                0 <= j < i && (pair_key(#[trigger] all[j]) == "code"@ || pair_key(all[j]) == "state"@) ==> decodable(
                    encode_utf8(pair_value(all[j])),
                ),
        decreases pairs@.len() - i,
    {
        assert(all[i as int] == pairs@[i as int]@);
        let kv: (String, String) = split_pair(&pairs[i]);
        if (same_str(kv.0.as_str(), "code") || same_str(kv.0.as_str(), "state")) && !can_decode(kv.1.as_str()) {
            return false;
        }
        i = i + 1;
    }
    true
}

fn same_text(a: &Option<String>, b: &Option<String>) -> (r: bool)
    ensures
        r == (text_in(*a) == text_in(*b)),
{
    match (a, b) {
        (Some(x), Some(y)) => same_str(x.as_str(), y.as_str()),
        (None, None) => true,
        _ => false,
    }
}

/// The code in the query that the service sent the browser back with: see
/// [`answered_code`]. `state` is what the tab's storage holds.
pub fn pending_code(search: &str, state: &Option<String>) -> (r: Option<String>)
    requires
        readable(query_pairs(search@)),
    ensures
        text_in(r) == answered_code(search@, text_in(*state)),
{
    if search.is_empty() {
        return None;
    }
    let pairs: Vec<Vec<char>> = split_query(search);
    let ghost all = views(pairs@);
    proof {
        reveal_strlit("code");
        reveal_strlit("state");
        assert("code"@.len() != "state"@.len());
    }
    let mut code: Option<String> = None;
    let mut got: Option<String> = None;
    let mut i: usize = 0;
    while i < pairs.len()
        invariant
            i <= pairs@.len(),
            all == views(pairs@),
            readable(all),
            "code"@ != "state"@,
            text_in(code) == query_value(all.take(i as int), "code"@),
            text_in(got) == query_value(all.take(i as int), "state"@),
        decreases pairs@.len() - i,
    {
        assert(all[i as int] == pairs@[i as int]@);
        assert(all.take(i + 1).drop_last() =~= all.take(i as int));
        let kv: (String, String) = split_pair(&pairs[i]);
        if same_str(kv.0.as_str(), "code") {
            code = Some(dec(kv.1.as_str()));
        } else if same_str(kv.0.as_str(), "state") {
            got = Some(dec(kv.1.as_str()));
        }
        i = i + 1;
    }
    assert(all.take(all.len() as int) =~= all);
    if got.is_some() && same_text(&got, state) {
        code
    } else {
        None
    }
}

// ---- the exchange -----------------------------------------------------------

/// The form that exchanges a code for a token.
pub open spec fn exchange_form(code: Seq<char>, redirect: Seq<char>, verifier: Seq<char>) -> Seq<char> {
    "grant_type=authorization_code&code="@ + encoded(code) + "&redirect_uri="@ + encoded(redirect) + "&client_id="@ + encoded(
        CLIENT_ID@,
    ) + "&code_verifier="@ + encoded(verifier)
}

/// The form that exchanges a code for a token. `verifier` is what the tab's storage
/// holds.
pub fn exchange_body(code: &str, redirect: &str, verifier: Option<&str>) -> (r: Result<String, String>)
    ensures
        match verifier {
            None => r matches Err(e) && e@ == "missing PKCE verifier (session expired?)"@,
            Some(v) => r matches Ok(b) && b@ == exchange_form(code@, redirect@, v@),
        },
{
    match verifier {
        None => Err("missing PKCE verifier (session expired?)".to_owned()),
        Some(verifier) => {
            let mut v: Vec<char> = chars_of("grant_type=authorization_code&code=");
            push_str(&mut v, enc(code).as_str());
            push_str(&mut v, "&redirect_uri=");
            push_str(&mut v, enc(redirect).as_str());
            push_str(&mut v, "&client_id=");
            push_str(&mut v, enc(CLIENT_ID).as_str());
            push_str(&mut v, "&code_verifier=");
            push_str(&mut v, enc(verifier).as_str());
            Ok(text_of(&v))
        },
    }
}

/// The token in the service's document.
pub open spec fn token_in(doc: Result<JsonView, Seq<char>>) -> Result<Seq<char>, Seq<char>> {
    match doc {
        Err(e) => Err("parse token json: "@ + e),
        Ok(v) => match member(v, "id_token"@) {
            Some(JsonView::Text(t)) => Ok(t),
            _ => Err("token response missing id_token"@),
        },
    }
}

/// What comes of the service's response to the exchange.
pub open spec fn exchanged(status: u16, text: Seq<char>) -> Result<Seq<char>, Seq<char>> {
    if 200 <= status < 300 {
        token_in(parsed_json(text))
    } else {
        Err("token endpoint "@ + decimal(status as nat) + ": "@ + text)
    }
}

/// The texts of a result.
pub open spec fn result_text(r: Result<String, String>) -> Result<Seq<char>, Seq<char>> {
    match r {
        Ok(t) => Ok(t@),
        Err(e) => Err(e@),
    }
}

/// The token in a document that was read, or the message that it was not.
pub fn read_token(doc: Result<Json, String>) -> (r: Result<String, String>)
    ensures
        result_text(r) == token_in(
            match doc {
                Ok(j) => Ok(j@),
                Err(e) => Err(e@),
            },
        ),
{
    match doc {
        Err(e) => {
            let mut v: Vec<char> = chars_of("parse token json: ");
            push_str(&mut v, e.as_str());
            Err(text_of(&v))
        },
        Ok(j) => match j.get("id_token") {
            Some(Json::Text(t)) => Ok(t.clone()),
            _ => Err("token response missing id_token".to_owned()),
        },
    }
}

/// The token in the service's response to the exchange.
pub fn exchange(status: u16, text: &str) -> (r: Result<String, String>)
    ensures
        result_text(r) == exchanged(status, text@),
{
    if status < 200 || status >= 300 {
        let mut v: Vec<char> = chars_of("token endpoint ");
        push_decimal(&mut v, status as u64);
        push_str(&mut v, ": ");
        push_str(&mut v, text);
        return Err(text_of(&v));
    }
    read_token(parse_json(text))
}

/// The change to the lasting storage that caches the display name of a token.
pub fn cache_username(id_token: &str) -> (r: Option<StorageOp>)
    ensures
        match r {
            Some(op) => op matches StorageOp::Put { key, value } && key@ == USERNAME_KEY@ && is_username(id_token@, Some(value@)),
            None => is_username(id_token@, None),
        },
{
    match extract_username(id_token) {
        Some(name) => Some(StorageOp::Put { key: USERNAME_KEY, value: name }),
        None => None,
    }
}

} // verus!
