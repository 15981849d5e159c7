//! What a sign-in sends, and what it takes from the answer.
use crate::audio_laws::lemma_last_part;
use crate::auth::{
    answered_code, claim_text, claimed_name, exchange_form, exchanged, first_at, holds_bytes, is_fresh_login, is_login, is_username, login_address, pair_key, pair_value,
    query_pairs, query_value, token_in, Login, StorageOp, AUTH_ENDPOINT, CLIENT_ID, SCOPES, SS_STATE, SS_VERIFIER,
};
use crate::encoding::{base64url, dec_bytes, decoded_text, enc_byte, enc_bytes, encoded, law_base64_is_unique, lemma_sextet, sha256};
use crate::export_laws::lemma_one_part;
use crate::json::{member, parsed_bytes, parsed_json, JsonView};
use crate::lists::lemma_joined;
use crate::text::{digit_value, parts};
use crate::text_laws::law_parts;
use vstd::prelude::*;
use vstd::utf8::encode_utf8;

verus! {

broadcast use vstd::seq::group_seq_axioms;

// ---- the parts of an address ------------------------------------------------

proof fn lemma_parts_join(a: Seq<char>, b: Seq<char>, c: char)
    ensures
        parts(a.push(c) + b, c) == parts(a, c) + parts(b, c),
    decreases b.len(),
{
    let s = a.push(c) + b;
    law_parts(b, c);
    if b.len() == 0 {
        assert(s =~= a.push(c));
        assert(s.drop_last() =~= a);
        assert(parts(s, c) =~= parts(a, c) + parts(b, c));
    } else {
        let less = b.drop_last();
        lemma_parts_join(a, less, c);
        law_parts(less, c);
        assert(s.drop_last() =~= a.push(c) + less);
        assert(s.last() == b.last());
        let p = parts(a, c);
        let q = parts(less, c);
        if b.last() == c {
            assert((p + q).push(Seq::<char>::empty()) =~= p + q.push(Seq::<char>::empty()));
        } else {
            assert((p + q).last() == q.last());
            assert((p + q).drop_last().push((p + q).last().push(b.last())) =~= p + q.drop_last().push(q.last().push(b.last())));
        }
    }
}

/// `m` stands in `s` between two separators, or between one and the end.
proof fn lemma_part(s: Seq<char>, before: Seq<char>, m: Seq<char>, after: Option<Seq<char>>, c: char)
    requires
        forall|i: int| 0 <= i < m.len() ==> #[trigger] m[i] != c,
        s == (match after {
            Some(rest) => (before.push(c) + m).push(c) + rest,
            None => before.push(c) + m,
        }),
    ensures
        parts(s, c).contains(m),
{
    let head = before.push(c) + m;
    lemma_last_part(before, m, c);
    let p = parts(head, c);
    assert(p[p.len() - 1] == m);
    assert(p.contains(m));
    if let Some(rest) = after {
        lemma_parts_join(head, rest, c);
        lemma_joined(p, parts(rest, c), m);
    }
}

proof fn lemma_enc_plain(b: Seq<u8>)
    ensures
        forall|i: int| 0 <= i < enc_bytes(b).len() ==> #[trigger] enc_bytes(b)[i] != '&',
    decreases b.len(),
{
    if b.len() > 0 {
        let p = enc_bytes(b.drop_last());
        let e = enc_byte(b.last());
        lemma_enc_plain(b.drop_last());
        assert forall|i: int| 0 <= i < e.len() implies #[trigger] e[i] != '&' by {}
        assert forall|i: int| 0 <= i < enc_bytes(b).len() implies #[trigger] enc_bytes(b)[i] != '&' by {
            if i < p.len() {
                assert(enc_bytes(b)[i] == p[i]);
            } else {
                assert(enc_bytes(b)[i] == e[i - p.len()]);
            }
        }
    }
}

proof fn lemma_field(key: Seq<char>, value: Seq<char>)
    requires
        forall|i: int| 0 <= i < key.len() ==> #[trigger] key[i] != '&',
    ensures
        forall|i: int| 0 <= i < (key + encoded(value)).len() ==> #[trigger] (key + encoded(value))[i] != '&',
{
    lemma_enc_plain(encode_utf8(value));
    let e = encoded(value);
    assert forall|i: int| 0 <= i < (key + e).len() implies #[trigger] (key + e)[i] != '&' by {
        if i < key.len() {
            assert((key + e)[i] == key[i]);
        } else {
            assert((key + e)[i] == e[i - key.len()]);
        }
    }
}

/// The address that a sign-in begins at carries, each as a field of its own, where to send
/// the browser back to, what is asked for, the state and the challenge, and that the
/// challenge is hashed.
pub proof fn law_login_address(redirect: Seq<char>, state: Seq<char>, challenge: Seq<char>)
    ensures
        ({
            let fields = parts(login_address(redirect, state, challenge), '&');
            &&& fields.contains("redirect_uri="@ + encoded(redirect))
            &&& fields.contains("scope="@ + encoded(SCOPES@))
            &&& fields.contains("client_id="@ + encoded(CLIENT_ID@))
            &&& fields.contains("state="@ + encoded(state))
            &&& fields.contains("code_challenge="@ + encoded(challenge))
            &&& fields.contains("code_challenge_method=S256"@)
        }),
{
    reveal_strlit("?response_type=code&client_id=");
    reveal_strlit("?response_type=code");
    reveal_strlit("client_id=");
    reveal_strlit("&redirect_uri=");
    reveal_strlit("redirect_uri=");
    reveal_strlit("&scope=");
    reveal_strlit("scope=");
    reveal_strlit("&state=");
    reveal_strlit("state=");
    reveal_strlit("&code_challenge=");
    reveal_strlit("code_challenge=");
    reveal_strlit("&code_challenge_method=S256");
    reveal_strlit("code_challenge_method=S256");
    let s = login_address(redirect, state, challenge);
    let start = AUTH_ENDPOINT@ + "?response_type=code"@;
    let f0 = "client_id="@ + encoded(CLIENT_ID@);
    let f1 = "redirect_uri="@ + encoded(redirect);
    let f2 = "scope="@ + encoded(SCOPES@);
    let f3 = "state="@ + encoded(state);
    let f4 = "code_challenge="@ + encoded(challenge);
    let f5 = "code_challenge_method=S256"@;
    assert("?response_type=code&client_id="@ =~= "?response_type=code"@.push('&') + "client_id="@);
    assert("&redirect_uri="@ =~= seq!['&'] + "redirect_uri="@);
    assert("&scope="@ =~= seq!['&'] + "scope="@);
    assert("&state="@ =~= seq!['&'] + "state="@);
    assert("&code_challenge="@ =~= seq!['&'] + "code_challenge="@);
    assert("&code_challenge_method=S256"@ =~= seq!['&'] + f5);
    let h0 = start.push('&') + f0;
    let h1 = h0.push('&') + f1;
    let h2 = h1.push('&') + f2;
    let h3 = h2.push('&') + f3;
    let h4 = h3.push('&') + f4;
    let h5 = h4.push('&') + f5;
    assert(AUTH_ENDPOINT@ + "?response_type=code&client_id="@ + encoded(CLIENT_ID@) =~= h0);
    assert(h0 + "&redirect_uri="@ + encoded(redirect) =~= h1);
    assert(h1 + "&scope="@ + encoded(SCOPES@) =~= h2);
    assert(h2 + "&state="@ + encoded(state) =~= h3);
    assert(h3 + "&code_challenge="@ + encoded(challenge) =~= h4);
    assert(h4 + "&code_challenge_method=S256"@ =~= h5);
    assert(s == h5);
    lemma_field("client_id="@, CLIENT_ID@);
    lemma_field("redirect_uri="@, redirect);
    lemma_field("scope="@, SCOPES@);
    lemma_field("state="@, state);
    lemma_field("code_challenge="@, challenge);
    let t4 = f5;
    let t3 = f4.push('&') + t4;
    let t2 = f3.push('&') + t3;
    let t1 = f2.push('&') + t2;
    let t0 = f1.push('&') + t1;
    assert(s =~= h4.push('&') + t4);
    assert(s =~= h3.push('&') + t3);
    assert(s =~= h2.push('&') + t2);
    assert(s =~= h1.push('&') + t1);
    assert(s =~= h0.push('&') + t0);
    lemma_part(s, start, f0, Some(t0), '&');
    lemma_part(s, h0, f1, Some(t1), '&');
    lemma_part(s, h1, f2, Some(t2), '&');
    lemma_part(s, h2, f3, Some(t3), '&');
    lemma_part(s, h3, f4, Some(t4), '&');
    lemma_part(s, h4, f5, None, '&');
}

/// A sign-in keeps its secret: what goes out is the hash of the proof key that is kept, and
/// the state that is kept, so that the answer can be told from another's.
pub proof fn law_login(l: Login, redirect: Seq<char>, verifier: Seq<char>, state: Seq<char>)
    requires
        is_login(l, redirect, verifier, state),
    ensures
        parts(l.url@, '&').contains("state="@ + encoded(state)),
        parts(l.url@, '&').contains("code_challenge="@ + encoded(base64url(sha256(encode_utf8(verifier))))),
        exists|i: int|
            0 <= i < l.keep@.len() && ((#[trigger] l.keep@[i]) matches StorageOp::Put { key, value } && key@ == SS_VERIFIER@ && value@
                == verifier),
        exists|i: int|
            0 <= i < l.keep@.len() && ((#[trigger] l.keep@[i]) matches StorageOp::Put { key, value } && key@ == SS_STATE@ && value@ == state),
{
    law_login_address(redirect, state, base64url(sha256(encode_utf8(verifier))));
    assert(l.keep@[0] is Put && l.keep@[1] is Put);
}

/// The form that exchanges a code carries the code, the proof key and where the browser was
/// sent back to, each as a field of its own.
pub proof fn law_exchange_form(code: Seq<char>, redirect: Seq<char>, verifier: Seq<char>)
    ensures
        ({
            let fields = parts(exchange_form(code, redirect, verifier), '&');
            &&& fields.contains("code="@ + encoded(code))
            &&& fields.contains("redirect_uri="@ + encoded(redirect))
            &&& fields.contains("client_id="@ + encoded(CLIENT_ID@))
            &&& fields.contains("code_verifier="@ + encoded(verifier))
        }),
{
    reveal_strlit("grant_type=authorization_code&code=");
    reveal_strlit("grant_type=authorization_code");
    reveal_strlit("code=");
    reveal_strlit("&redirect_uri=");
    reveal_strlit("redirect_uri=");
    reveal_strlit("&client_id=");
    reveal_strlit("client_id=");
    reveal_strlit("&code_verifier=");
    reveal_strlit("code_verifier=");
    let s = exchange_form(code, redirect, verifier);
    let start = "grant_type=authorization_code"@;
    let f0 = "code="@ + encoded(code);
    let f1 = "redirect_uri="@ + encoded(redirect);
    let f2 = "client_id="@ + encoded(CLIENT_ID@);
    let f3 = "code_verifier="@ + encoded(verifier);
    assert("grant_type=authorization_code&code="@ =~= start.push('&') + "code="@);
    assert("&redirect_uri="@ =~= seq!['&'] + "redirect_uri="@);
    assert("&client_id="@ =~= seq!['&'] + "client_id="@);
    assert("&code_verifier="@ =~= seq!['&'] + "code_verifier="@);
    let h0 = start.push('&') + f0;
    let h1 = h0.push('&') + f1;
    let h2 = h1.push('&') + f2;
    let h3 = h2.push('&') + f3;
    assert("grant_type=authorization_code&code="@ + encoded(code) =~= h0);
    assert(h0 + "&redirect_uri="@ + encoded(redirect) =~= h1);
    assert(h1 + "&client_id="@ + encoded(CLIENT_ID@) =~= h2);
    assert(h2 + "&code_verifier="@ + encoded(verifier) =~= h3);
    assert(s == h3);
    lemma_field("code="@, code);
    lemma_field("redirect_uri="@, redirect);
    lemma_field("client_id="@, CLIENT_ID@);
    lemma_field("code_verifier="@, verifier);
    let t2 = f3;
    let t1 = f2.push('&') + t2;
    let t0 = f1.push('&') + t1;
    assert(s =~= h2.push('&') + t2);
    assert(s =~= h1.push('&') + t1);
    assert(s =~= h0.push('&') + t0);
    lemma_part(s, start, f0, Some(t0), '&');
    lemma_part(s, h0, f1, Some(t1), '&');
    lemma_part(s, h1, f2, Some(t2), '&');
    lemma_part(s, h2, f3, None, '&');
}

// ---- the answer -------------------------------------------------------------

proof fn lemma_first_at(s: Seq<char>, c: char, i: int)
    requires
        0 <= i < s.len(),
        s[i] == c,
        forall|j: int| 0 <= j < i ==> #[trigger] s[j] != c,
    ensures
        first_at(s, c) == Some(i),
    decreases s.len(),
{
    let p = s.drop_last();
    if i < p.len() {
        assert(p[i] == s[i]);
        lemma_first_at(p, c, i);
    } else {
        lemma_not_in(p, c);
    }
}

proof fn lemma_not_in(s: Seq<char>, c: char)
    requires
        forall|j: int| 0 <= j < s.len() ==> #[trigger] s[j] != c,
    ensures
        first_at(s, c) is None,
    decreases s.len(),
{
    if s.len() > 0 {
        let p = s.drop_last();
        assert forall|j: int| 0 <= j < p.len() implies #[trigger] p[j] != c by {
            assert(p[j] == s[j]);
        }
        lemma_not_in(p, c);
        assert(s[s.len() - 1] != c);
    }
}

/// A field of a query is split at its first equals sign; without one it is a name alone.
pub proof fn law_pair(key: Seq<char>, value: Seq<char>)
    requires
        forall|j: int| 0 <= j < key.len() ==> #[trigger] key[j] != '=',
    ensures
        pair_key(key.push('=') + value) == key,
        pair_value(key.push('=') + value) == value,
        pair_key(key) == key,
        pair_value(key).len() == 0,
{
    let s = key.push('=') + value;
    let n = key.len() as int;
    assert forall|j: int| 0 <= j < n implies #[trigger] s[j] != '=' by {
        assert(s[j] == key[j]);
    }
    lemma_first_at(s, '=', n);
    lemma_not_in(key, '=');
    assert(s.take(n) =~= key);
    assert(s.skip(n + 1) =~= value);
}

/// A query's value is that of the last field of the name, decoded; there is none exactly
/// where no field has the name.
pub proof fn law_query_value(pairs: Seq<Seq<char>>, key: Seq<char>)
    ensures
        match query_value(pairs, key) {
            Some(v) => exists|i: int|
                {
                    &&& 0 <= i < pairs.len() && pair_key(#[trigger] pairs[i]) == key && v == decoded_text(pair_value(pairs[i]))
                    &&& forall|j: int| i < j < pairs.len() ==> pair_key(#[trigger] pairs[j]) != key
                },
            None => forall|j: int| 0 <= j < pairs.len() ==> pair_key(#[trigger] pairs[j]) != key,
        },
    decreases pairs.len(),
{
    if pairs.len() > 0 {
        let p = pairs.drop_last();
        let z = pairs.len() - 1;
        if pair_key(pairs[z]) == key {
            assert(query_value(pairs, key) == Some(decoded_text(pair_value(pairs[z]))));
        } else {
            law_query_value(p, key);
            match query_value(p, key) {
                Some(v) => {
                    let i = choose|i: int|
                        {
                            &&& 0 <= i < p.len() && pair_key(#[trigger] p[i]) == key && v == decoded_text(pair_value(p[i]))
                            &&& forall|j: int| i < j < p.len() ==> pair_key(#[trigger] p[j]) != key
                        };
                    assert(pairs[i] == p[i]);
                    assert forall|j: int| i < j < pairs.len() implies pair_key(#[trigger] pairs[j]) != key by {
                        if j < z {
                            assert(p[j] == pairs[j]);
                        }
                    }
                },
                None => {
                    assert forall|j: int| 0 <= j < pairs.len() implies pair_key(#[trigger] pairs[j]) != key by {
                        if j < z {
                            assert(p[j] == pairs[j]);
                        }
                    }
                },
            }
        }
    }
}

/// A code is taken only from the answer to the sign-in that was begun: one without a state,
/// with another state, or where none is kept, gives none; and with the right one the code is
/// that of the query.
pub proof fn law_answer_needs_state(search: Seq<char>, kept: Option<Seq<char>>)
    ensures
        kept is None ==> answered_code(search, kept) is None,
        query_value(query_pairs(search), "state"@) != kept ==> answered_code(search, kept) is None,
        search.len() > 0 && kept is Some && query_value(query_pairs(search), "state"@) == kept ==> answered_code(search, kept) == query_value(
            query_pairs(search),
            "code"@,
        ),
{
}

/// A query has the same fields with and without its question mark.
pub proof fn law_question_mark(query: Seq<char>)
    requires
        query.len() == 0 || query[0] != '?',
    ensures
        query_pairs(seq!['?'] + query) == parts(query, '&'),
        query_pairs(query) == parts(query, '&'),
{
    reveal_strlit("?");
    let s = seq!['?'] + query;
    assert(s.take(1) =~= "?"@);
    assert(s.skip(1) =~= query);
    if query.len() > 0 {
        assert(query.take(1)[0] == query[0]);
        assert("?"@[0] == '?');
    }
}

/// The name shown is the preferred one: of the claims that hold a text, the first in the order
/// of user name, nickname, name and given name.
pub proof fn law_claimed_name(claims: JsonView)
    ensures
        claim_text(claims, "preferred_username"@) is Some ==> claimed_name(claims) == claim_text(claims, "preferred_username"@),
        claim_text(claims, "preferred_username"@) is None && claim_text(claims, "nickname"@) is Some ==> claimed_name(claims) == claim_text(
            claims,
            "nickname"@,
        ),
        claim_text(claims, "preferred_username"@) is None && claim_text(claims, "nickname"@) is None && claim_text(claims, "name"@) is Some
            ==> claimed_name(claims) == claim_text(claims, "name"@),
        claim_text(claims, "preferred_username"@) is None && claim_text(claims, "nickname"@) is None && claim_text(claims, "name"@) is None
            ==> claimed_name(claims) == claim_text(claims, "given_name"@),
        claimed_name(claims) matches Some(n) ==> n.len() > 0,
{
}

/// A token is taken exactly from a successful response that is a document with one.
pub proof fn law_exchanged(status: u16, text: Seq<char>)
    ensures
        exchanged(status, text) matches Ok(t) ==> 200 <= status <= 299 && (parsed_json(text) matches Ok(doc) && member(doc, "id_token"@)
            == Some(JsonView::Text(t))),
        200 <= status <= 299 && (parsed_json(text) matches Ok(doc) && member(doc, "id_token"@) is Some && member(doc, "id_token"@)->0
            is Text) ==> exchanged(status, text) is Ok,
        token_in(parsed_json(text)) is Err ==> exchanged(status, text) is Err,
{
}

// ---- encodings --------------------------------------------------------------

/// Percent encoding is undone byte by byte: a percent sign and two hexadecimal digits, in
/// either case, are the byte of that number, a plus sign is a space, and any other byte is
/// itself.
pub proof fn law_percent_decoding(a: u8, b: u8, x: nat, y: nat, rest: Seq<u8>)
    requires
        a < 128,
        b < 128,
        digit_value(a as char, 16) == Some(x),
        digit_value(b as char, 16) == Some(y),
    ensures
        dec_bytes(seq![37u8, a, b] + rest) == seq![(16 * x + y) as u8] + dec_bytes(rest),
        dec_bytes(seq![43u8] + rest) == seq![32u8] + dec_bytes(rest),
        dec_bytes(seq![a] + rest) == seq![a] + dec_bytes(rest),
{
    let s = seq![37u8, a, b] + rest;
    assert(s.skip(3) =~= rest);
    assert((seq![43u8] + rest).skip(1) =~= rest);
    assert((seq![a] + rest).skip(1) =~= rest);
    assert(s[1] == a && s[2] == b);
}

// ---- tokens and proof keys --------------------------------------------------

proof fn lemma_no_dot(b: Seq<u8>)
    ensures
        forall|k: int| 0 <= k < base64url(b).len() ==> #[trigger] base64url(b)[k] != '.',
{
    assert forall|k: int| 0 <= k < base64url(b).len() implies #[trigger] base64url(b)[k] != '.' by {
        lemma_sextet(b, k);
    }
}

/// The name in a token is that of the claims in its second part, whatever the others hold.
pub proof fn law_username(header: Seq<char>, claims: Seq<u8>, rest: Seq<char>, name: Option<Seq<char>>)
    requires
        forall|i: int| 0 <= i < header.len() ==> #[trigger] header[i] != '.',
        is_username((header.push('.') + base64url(claims)).push('.') + rest, name),
    ensures
        name == (match parsed_bytes(claims) {
            Some(doc) => claimed_name(doc),
            None => None,
        }),
{
    let body = base64url(claims);
    let head = header.push('.') + body;
    lemma_no_dot(claims);
    lemma_one_part(header, '.');
    lemma_one_part(body, '.');
    lemma_parts_join(header, body, '.');
    lemma_parts_join(head, rest, '.');
    law_parts(rest, '.');
    let ps = parts(head.push('.') + rest, '.');
    assert(ps[1] == body);
    assert(base64url(claims) == ps[1]);
    let b = choose|b: Seq<u8>| #[trigger]
        base64url(b) == ps[1] && name == (match parsed_bytes(b) {
            Some(doc) => claimed_name(doc),
            None => None,
        });
    law_base64_is_unique(b, claims);
}

/// A sign-in that begins keeps a proof key of 32 bytes and a state of 16, and sends the key's
/// hash and the state.
pub proof fn law_fresh_login(l: Login, redirect: Seq<char>)
    requires
        is_fresh_login(l, redirect),
    ensures
        exists|key: Seq<u8>, state: Seq<u8>|
            #![trigger base64url(key), base64url(state)]
            {
                &&& key.len() == 32 && state.len() == 16
                &&& is_login(l, redirect, base64url(key), base64url(state))
                &&& parts(l.url@, '&').contains("state="@ + encoded(base64url(state)))
                &&& parts(l.url@, '&').contains("code_challenge="@ + encoded(base64url(sha256(encode_utf8(base64url(key))))))
            },
{
    let (verifier, state) = choose|verifier: Seq<char>, state: Seq<char>|
        holds_bytes(verifier, 32) && holds_bytes(state, 16) && #[trigger] is_login(l, redirect, verifier, state);
    let a = choose|b: Seq<u8>| b.len() == 32 && verifier == #[trigger] base64url(b);
    let b = choose|b: Seq<u8>| b.len() == 16 && state == #[trigger] base64url(b);
    law_login(l, redirect, verifier, state);
    assert(verifier == base64url(a) && state == base64url(b));
}

} // verus!
