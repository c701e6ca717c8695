use server::cookies::Cookies;
use server::session::SessionId;
use server::token::{NumericDate, Token, TokenAuthority};

const SIGNING_KEY: &str = "MC4CAQAwBQYDK2VwBCIEIJ1hsZ3v/VpguoRK9JLsLMREScVpezJpGXA7rAMcrn9g";
const VERIFYING_KEY: &str = "11qYAYKxCrfVS/7TyWQHOg7hcvPapiMlrwIaaPcHURo=";

fn authority() -> TokenAuthority {
    TokenAuthority::new("example.com".to_string(), SIGNING_KEY, VERIFYING_KEY).unwrap()
}

#[test]
fn session_token_in_refresh_cookie_is_absent() {
    let auth = authority();
    let session = Token::issue_session(&auth);
    let text = session.encode(&auth).unwrap();
    let now = session.claims().iat();
    let ck = Cookies::from_values(&auth, now, Some(&text), None, None);
    assert!(ck.refresh.is_none());
    let ck = Cookies::from_values(&auth, now, None, Some(&text), None);
    assert!(ck.session.as_ref().unwrap().is_session());
}

#[test]
fn refresh_token_in_session_cookie_is_absent() {
    let auth = authority();
    let refresh = Token::issue_refresh(&auth);
    let text = refresh.encode(&auth).unwrap();
    let now = refresh.claims().iat();
    let ck = Cookies::from_values(&auth, now, Some(&text), Some(&text), None);
    assert!(ck.refresh.as_ref().unwrap().is_refresh());
    assert!(ck.session.is_none());
}

#[test]
fn each_cookie_fails_on_its_own() {
    let auth = authority();
    let refresh = Token::issue_refresh(&auth);
    let text = refresh.encode(&auth).unwrap();
    let now = refresh.claims().iat();
    let ck = Cookies::from_values(&auth, now, Some(&text), Some("garbage"), Some("zz"));
    assert!(ck.refresh.is_some());
    assert!(ck.session.is_none());
    assert!(ck.status.is_none());
}

#[test]
fn status_cookie_is_read_as_hex() {
    let auth = authority();
    let ck = Cookies::from_values(&auth, NumericDate(0), None, None, Some("00ff"));
    assert_eq!(ck.status, Some(SessionId(255)));
    let ck = Cookies::from_values(&auth, NumericDate(0), None, None, None);
    assert_eq!(ck.status, None);
}

#[test]
fn session_id_text_is_fixed_width_hex() {
    let id = SessionId(0xabc);
    assert_eq!(id.to_text(), "00000000000000000000000000000abc");
    assert_eq!(SessionId(u128::MAX).to_text(), "ffffffffffffffffffffffffffffffff");
    assert_eq!(SessionId::parse(&id.to_text()), Some(id));
    assert_eq!(SessionId::parse("ABC"), Some(SessionId(0xabc)));
    assert_eq!(SessionId::parse(""), None);
    assert_eq!(SessionId::parse(" abc"), None);
    assert_eq!(SessionId::parse("+abc"), Some(SessionId(0xabc)));
    assert_eq!(SessionId::parse("+"), None);
    assert_eq!(SessionId::parse("++1"), None);
    assert_eq!(SessionId::parse("-1"), None);
    assert_eq!(SessionId::parse("fffffffffffffffffffffffffffffffff"), None);
    assert_eq!(SessionId::parse("0ffffffffffffffffffffffffffffffff"), Some(SessionId(u128::MAX)));
    assert_eq!(SessionId::from(5u128), SessionId(5));
}

#[test]
fn cookies_are_hardened_and_absent_ones_removed() {
    let auth = authority();
    let ck = Cookies { refresh: Some(Token::issue_refresh(&auth)), session: None, status: Some(SessionId(1)) };
    let out = ck.as_cookies(&auth).unwrap();
    assert_eq!(out.len(), 3);
    let names: Vec<&str> = out.iter().map(|c| c.name.as_str()).collect();
    assert_eq!(names, vec!["refresh", "session", "status"]);
    for c in &out {
        assert_eq!(c.domain, "example.com");
        assert!(c.http_only && c.secure && c.same_site_strict);
    }
    assert!(!out[0].removal);
    assert!(!out[0].value.is_empty());
    assert!(out[1].removal);
    assert_eq!(out[1].value, "");
    assert!(!out[2].removal);
    assert_eq!(out[2].value, "00000000000000000000000000000001");
    let back = Cookies::from_values(&auth, NumericDate::now(), Some(&out[0].value), None, Some(&out[2].value));
    assert!(back.refresh.is_some());
    assert_eq!(back.status, Some(SessionId(1)));
}

#[test]
fn empty_cookies_are_all_removals() {
    let auth = authority();
    let ck = Cookies { refresh: None, session: None, status: None };
    let out = ck.as_cookies(&auth).unwrap();
    assert!(out.iter().all(|c| c.removal && c.value.is_empty()));
}

#[test]
fn from_parts_keeps_only_matching_kinds() {
    let auth = authority();
    let ck = Cookies::from_parts(
        Some(Token::issue_session(&auth)),
        Some(Token::issue_refresh(&auth)),
        Some(SessionId(3)),
    );
    assert!(ck.refresh.is_none());
    assert!(ck.session.is_none());
    assert_eq!(ck.status, Some(SessionId(3)));
}

#[test]
fn token_cookie_value_is_the_encoded_token() {
    let auth = authority();
    let t = Token::issue_refresh(&auth);
    let text = t.encode(&auth).unwrap();
    let ck = Cookies { refresh: Some(t), session: None, status: None };
    let out = ck.as_cookies(&auth).unwrap();
    assert_eq!(out[0].value, text);
}
