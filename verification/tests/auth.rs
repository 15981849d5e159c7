//! Signing in, encodings, and getting online.
use lightshow::auth::{
    cache_username, can_read, clear_session, clear_token, exchange, exchange_body, extract_username, login, login_url, login_with, logout,
    pending_code, read_token, redirect_uri, store_token, stored_token, stored_username, username_in, StorageOp, SS_STATE,
    SS_VERIFIER, TOKEN_KEY, USERNAME_KEY,
};
use lightshow::conn::{
    base_queries, bootstrap, connected, exchanged, project_queries, sync_subscriptions, Boot, ConnState, SubStep,
};
use lightshow::encoding::{can_decode, dec, enc, random_b64url, sha256_b64url};
use lightshow::json::Json;

#[test]
fn components_are_encoded() {
    assert_eq!(enc("openid profile"), "openid%20profile");
    assert_eq!(enc("https://x/?a=b&c"), "https%3A%2F%2Fx%2F%3Fa%3Db%26c");
    assert_eq!(enc("A-z_0.9~é"), "A-z_0.9~%C3%A9");
    for s in ["", "a b+c%", "Größe 50%", "日本"] {
        assert!(can_decode(&enc(s)));
        assert_eq!(dec(&enc(s)), s);
    }
}

#[test]
fn odd_components_decode() {
    assert_eq!(dec("a+b"), "a b");
    assert_eq!(dec("100%"), "100%");
    assert_eq!(dec("%zz"), "%zz");
    assert_eq!(dec("%+A"), "\n"); // a sign counts as a digit
    assert_eq!(dec("%c3%a9"), "é");
    assert_eq!(dec("%ff"), "\u{fffd}");
    assert!(!can_decode("%aé"));
    assert!(can_decode("%é"));
}

#[test]
fn challenges_are_digests() {
    // The example of RFC 7636.
    assert_eq!(
        sha256_b64url("dBjftJeZ4CVP-mB92K27uhbUJU1p1r_wW1gFWFOEjXk"),
        "E9Melhoa2OwvFrEMTJguCHaoeK1t8URWbuGJSstw-cM"
    );
    let a = random_b64url(32).unwrap();
    assert_eq!(a.len(), 43);
    assert!(a.chars().all(|c| c.is_ascii_alphanumeric() || c == '-' || c == '_'));
    assert_ne!(a, random_b64url(32).unwrap());
    assert_eq!(random_b64url(0).unwrap(), "");
}

#[test]
fn sign_in_begins_with_an_address() {
    assert_eq!(redirect_uri(Some("http://localhost:8123")), "http://localhost:8123/");
    assert_eq!(redirect_uri(None), "");
    assert_eq!(
        login_url("http://h/", "s 1", "c"),
        "https://auth.spacetimedb.com/oidc/auth?response_type=code&client_id=client_033aGOIb0qVHD1QceoUysS&\
         redirect_uri=http%3A%2F%2Fh%2F&scope=openid%20profile&state=s%201&code_challenge=c&code_challenge_method=S256"
    );
    let l = login_with(Some("http://h"), "v".to_string(), "s".to_string());
    assert!(l.url.contains(&format!("code_challenge={}", sha256_b64url("v"))));
    assert!(matches!(&l.keep[0], StorageOp::Put { key, value } if *key == SS_VERIFIER && value == "v"));
    assert!(matches!(&l.keep[1], StorageOp::Put { key, value } if *key == SS_STATE && value == "s"));
    let fresh = login(None).unwrap();
    assert!(matches!(&fresh.keep[0], StorageOp::Put { value, .. } if value.len() == 43));
    assert!(matches!(&fresh.keep[1], StorageOp::Put { value, .. } if value.len() == 22));
}

#[test]
fn answers_need_the_right_state() {
    let state = Some("s&t".to_string());
    assert_eq!(pending_code("?code=a%20b&state=s%26t", &state), Some("a b".to_string()));
    assert_eq!(pending_code("code=x=y&state=s%26t&code=z=", &state), Some("z=".to_string()));
    assert_eq!(pending_code("?code=a&state=other", &state), None);
    assert_eq!(pending_code("?code=a", &state), None);
    assert_eq!(pending_code("?state=s%26t", &state), None);
    assert_eq!(pending_code("", &state), None);
    assert_eq!(pending_code("?code=a&state=", &None), None);
    assert!(!can_read("?code=%aé"));
    assert!(can_read("?other=%aé&code=a"));
}

#[test]
fn codes_are_exchanged() {
    assert_eq!(
        exchange_body("c d", "http://h/", Some("v")).unwrap(),
        "grant_type=authorization_code&code=c%20d&redirect_uri=http%3A%2F%2Fh%2F&client_id=client_033aGOIb0qVHD1QceoUysS&\
         code_verifier=v"
    );
    assert_eq!(exchange_body("c", "r", None).unwrap_err(), "missing PKCE verifier (session expired?)");
    assert_eq!(exchange(200, "{\"id_token\": \"t\"}").unwrap(), "t");
    assert_eq!(exchange(299, "{}").unwrap_err(), "token response missing id_token");
    assert_eq!(exchange(400, "nope").unwrap_err(), "token endpoint 400: nope");
    assert!(exchange(200, "{").unwrap_err().starts_with("parse token json: "));
    assert_eq!(read_token(Err("x".to_string())).unwrap_err(), "parse token json: x");
    assert_eq!(read_token(Ok(Json::Object(vec![("id_token".to_string(), Json::Text("y".to_string()))]))).unwrap(), "y");
}

#[test]
fn names_come_from_the_token() {
    // {"name":"Ann","nickname":""}
    let token = "h.eyJuYW1lIjoiQW5uIiwibmlja25hbWUiOiIifQ.s";
    assert_eq!(extract_username(token), Some("Ann".to_string()));
    assert!(matches!(cache_username(token), Some(StorageOp::Put { key, value }) if key == USERNAME_KEY && value == "Ann"));
    assert_eq!(extract_username("no dots"), None);
    assert_eq!(extract_username("h.!!.s"), None);
    assert_eq!(extract_username("h.AAA.s"), None);
    // Padding and loose bits are refused.
    assert_eq!(extract_username("h.e30=.s"), None);
    assert_eq!(extract_username("h.e31.s"), None);
    assert!(cache_username("h.e30.s").is_none());
    let both = Json::Object(vec![
        ("name".to_string(), Json::Text("n".to_string())),
        ("preferred_username".to_string(), Json::Text("p".to_string())),
    ]);
    assert_eq!(username_in(&both), Some("p".to_string()));
}

#[test]
fn tokens_are_kept_and_forgotten() {
    assert!(matches!(store_token("t"), StorageOp::Put { key, value } if key == TOKEN_KEY && value == "t"));
    assert_eq!(stored_token(Some("t".to_string())), Some("t".to_string()));
    assert_eq!(stored_token(Some(String::new())), None);
    assert_eq!(stored_username(None), None);
    assert_eq!(clear_token().len(), 2);
    assert!(matches!(clear_session()[1], StorageOp::Remove { key } if key == SS_STATE));
    let (lasting, tab) = logout();
    assert!(matches!(lasting[0], StorageOp::Remove { key } if key == TOKEN_KEY));
    assert!(matches!(tab[0], StorageOp::Remove { key } if key == SS_VERIFIER));
}

#[test]
fn sessions_begin() {
    let (s, b) = bootstrap(Some("c".to_string()), Some("t".to_string()));
    assert!(matches!((s, b), (ConnState::Authenticating, Boot::Exchange(c)) if c == "c"));
    let (s, b) = bootstrap(None, Some("t".to_string()));
    assert!(matches!((s, b), (ConnState::Connecting, Boot::Connect(t)) if t == "t"));
    assert!(matches!(bootstrap(None, None), (ConnState::NeedsLogin, Boot::Wait)));
    assert!(matches!(exchanged(Err("e".to_string())), (ConnState::Failed(m), Boot::Wait) if m == "Login failed: e"));
    assert!(matches!(exchanged(Ok("t".to_string())), (ConnState::Connecting, Boot::Connect(_))));
    assert!(matches!(connected(Ok(())), (ConnState::Connected, false)));
    assert!(matches!(connected(Err("e".to_string())), (ConnState::Failed(_), true)));
}

#[test]
fn rows_are_asked_for() {
    assert_eq!(base_queries().len(), 4);
    assert_eq!(project_queries(12)[0], "SELECT * FROM song_chunk WHERE project_id = 12");
    assert!(matches!(sync_subscriptions(Some(3), Some(3)), SubStep::Keep));
    assert!(matches!(sync_subscriptions(Some(3), None), SubStep::Change(None)));
    assert!(matches!(sync_subscriptions(None, Some(4)), SubStep::Change(Some(q)) if q.len() == 4));
}
