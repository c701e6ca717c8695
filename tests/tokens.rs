use server::payload::parse_claims;
use server::token::{
    Claims, TokenId, KeyError, NumericDate, Token, TokenAuthority, TokenError, REFRESH_LIFETIME,
    SESSION_LIFETIME,
};

const SIGNING_KEY: &str = "MC4CAQAwBQYDK2VwBCIEIJ1hsZ3v/VpguoRK9JLsLMREScVpezJpGXA7rAMcrn9g";
const VERIFYING_KEY: &str = "11qYAYKxCrfVS/7TyWQHOg7hcvPapiMlrwIaaPcHURo=";

fn authority() -> TokenAuthority {
    TokenAuthority::new("example.com".to_string(), SIGNING_KEY, VERIFYING_KEY).unwrap()
}

fn claims(iat: u64, exp: u64) -> Claims {
    Claims::checked(
        "example.com".to_string(),
        "client".to_string(),
        NumericDate(exp),
        NumericDate(iat),
        "abc".to_string(),
    )
    .unwrap()
}

fn refresh_token(iat: u64, exp: u64) -> Token {
    Token::Refresh { inner: claims(iat, exp) }
}

#[test]
fn claim_text_is_canonical_json() {
    let t = refresh_token(40, 100);
    assert_eq!(
        t.claim_text(),
        r#"{"sub":"refresh","iss":"example.com","aud":"client","exp":100,"iat":40,"jti":"abc"}"#
    );
}

#[test]
fn claim_text_reads_back() {
    let text = r#"{"sub":"session","iss":"h","aud":"client","exp":0,"iat":18446744073709551615,"jti":""}"#;
    let f = parse_claims(text).unwrap();
    assert!(!f.refresh);
    assert_eq!(f.iss, "h");
    assert_eq!(f.aud, "client");
    assert_eq!(f.exp, 0);
    assert_eq!(f.iat, u64::MAX);
    assert_eq!(f.jti, "");
}

#[test]
fn claim_text_refuses_other_shapes() {
    let bad = [
        r#"{"sub":"refresh","iss":"h","aud":"client","exp":0100,"iat":40,"jti":"abc"}"#,
        r#"{"sub":"refresh","iss":"h","aud":"client","exp":18446744073709551616,"iat":40,"jti":"abc"}"#,
        r#"{"sub":"other","iss":"h","aud":"client","exp":100,"iat":40,"jti":"abc"}"#,
        r#"{"sub":"refresh","iss":"h\"x","aud":"client","exp":100,"iat":40,"jti":"abc"}"#,
        r#"{"sub":"refresh","iss":"h","aud":"client","exp":100,"iat":40,"jti":"abc"} "#,
        r#"{"sub":"refresh","iss":"h","aud":"client","iat":40,"exp":100,"jti":"abc"}"#,
        r#"{"sub":"refresh","iss":"h","aud":"client","exp":,"iat":40,"jti":"abc"}"#,
        "",
    ];
    for text in bad {
        assert!(parse_claims(text).is_none(), "{text}");
        assert!(Token::from_claim_text(text).is_none(), "{text}");
    }
}

#[test]
fn sub_names_the_kind() {
    assert_eq!(refresh_token(1, 2).sub(), "refresh");
    let s = Token::Session { inner: claims(1, 2) };
    assert_eq!(s.sub(), "session");
    assert!(s.is_session());
    assert!(!s.is_refresh());
}

#[test]
fn after_secs_adds_and_saturates() {
    assert_eq!(NumericDate(10).after_secs(5), NumericDate(15));
    assert_eq!(NumericDate(u64::MAX - 1).after_secs(5), NumericDate(u64::MAX));
}

#[test]
fn issued_tokens_have_fixed_lifetimes() {
    let auth = authority();
    let r = Token::issue_refresh(&auth);
    let s = Token::issue_session(&auth);
    assert!(r.is_refresh());
    assert!(s.is_session());
    assert_eq!(r.claims().exp().0 - r.claims().iat().0, REFRESH_LIFETIME);
    assert_eq!(s.claims().exp().0 - s.claims().iat().0, SESSION_LIFETIME);
    assert_eq!(REFRESH_LIFETIME, 60 * 60 * 24 * 4);
    assert_eq!(SESSION_LIFETIME, 60 * 60);
    assert_eq!(r.claims().iss(), "example.com");
    assert_eq!(r.claims().aud(), "client");
    assert_eq!(r.claims().jti().len(), 36);
    assert_ne!(r.claims().jti(), s.claims().jti());
}

#[test]
fn refresh_token_round_trips_within_its_lifetime() {
    let auth = authority();
    let t = Token::issue_refresh(&auth);
    let text = t.encode(&auth).unwrap();
    assert_eq!(text.split('.').count(), 3);
    let now = t.claims().iat();
    let back = Token::decode(&text, &auth, now).unwrap();
    assert!(back.is_refresh());
    assert_eq!(back.claims().iss(), t.claims().iss());
    assert_eq!(back.claims().aud(), t.claims().aud());
    assert_eq!(back.claims().exp(), t.claims().exp());
    assert_eq!(back.claims().iat(), t.claims().iat());
    assert_eq!(back.claims().jti(), t.claims().jti());
    let late = NumericDate(t.claims().exp().0 - 1);
    assert!(Token::decode(&text, &auth, late).is_ok());
}

#[test]
fn refresh_token_fails_once_expired() {
    let auth = authority();
    let t = Token::issue_refresh(&auth);
    let text = t.encode(&auth).unwrap();
    assert_eq!(Token::decode(&text, &auth, t.claims().exp()).unwrap_err(), TokenError::Invalid);
}

#[test]
fn token_issued_in_the_future_is_refused() {
    let auth = authority();
    let t = Token::issue_refresh(&auth);
    let text = t.encode(&auth).unwrap();
    let before = NumericDate(t.claims().iat().0 - 1);
    assert_eq!(Token::decode(&text, &auth, before).unwrap_err(), TokenError::Invalid);
}

#[test]
fn tampered_token_is_refused() {
    let auth = authority();
    let t = Token::issue_refresh(&auth);
    let mut text = t.encode(&auth).unwrap();
    text.push('A');
    assert_eq!(
        Token::decode(&text, &auth, t.claims().iat()).unwrap_err(),
        TokenError::Invalid
    );
    assert_eq!(
        Token::decode("not a token", &auth, t.claims().iat()).unwrap_err(),
        TokenError::Invalid
    );
}

#[test]
fn token_of_another_issuer_is_refused() {
    let auth = authority();
    let other =
        TokenAuthority::new("other.example".to_string(), SIGNING_KEY, VERIFYING_KEY).unwrap();
    let t = Token::issue_refresh(&other);
    let text = t.encode(&other).unwrap();
    assert!(Token::decode(&text, &auth, t.claims().iat()).is_err());
}

#[test]
fn claims_that_need_escapes_cannot_be_made() {
    let bad = |iss: &str, aud: &str, jti: &str| {
        Claims::checked(iss.to_string(), aud.to_string(), NumericDate(2), NumericDate(1), jti.to_string())
    };
    assert!(bad("example.com", "client", "a\"b").is_none());
    assert!(bad("ex\\ample", "client", "abc").is_none());
    assert!(bad("example.com", "cli\nent", "abc").is_none());
    assert!(bad("example.com", "client", "abc").is_some());
    assert!(TokenId::parse("a\"b").is_none());
    assert_eq!(TokenId::parse("new-id").unwrap().as_str(), "new-id");
}

#[test]
fn accept_checks_every_claim() {
    let auth = authority();
    let ok = r#"{"sub":"refresh","iss":"example.com","aud":"client","exp":100,"iat":40,"jti":"abc"}"#;
    assert!(Token::accept(ok, &auth, NumericDate(40)).is_some());
    assert!(Token::accept(ok, &auth, NumericDate(99)).is_some());
    assert!(Token::accept(ok, &auth, NumericDate(100)).is_none());
    assert!(Token::accept(ok, &auth, NumericDate(39)).is_none());
    let wrong_aud = r#"{"sub":"refresh","iss":"example.com","aud":"server","exp":100,"iat":40,"jti":"abc"}"#;
    assert!(Token::accept(wrong_aud, &auth, NumericDate(50)).is_none());
    let wrong_iss = r#"{"sub":"refresh","iss":"example.org","aud":"client","exp":100,"iat":40,"jti":"abc"}"#;
    assert!(Token::accept(wrong_iss, &auth, NumericDate(50)).is_none());
}

#[test]
fn authority_refuses_bad_settings() {
    assert_eq!(
        TokenAuthority::new("ex\"ample".to_string(), SIGNING_KEY, VERIFYING_KEY).err(),
        Some(KeyError::Host)
    );
    assert_eq!(
        TokenAuthority::new("example.com".to_string(), "not base64!", VERIFYING_KEY).err(),
        Some(KeyError::EncodingKey)
    );
    assert_eq!(
        TokenAuthority::new("example.com".to_string(), SIGNING_KEY, "***").err(),
        Some(KeyError::DecodingKey)
    );
    assert_eq!(authority().host(), "example.com");
}

#[test]
fn now_is_after_the_epoch() {
    let (iat, exp) = server::token::available_time(10);
    assert!(iat.0 > 1_600_000_000);
    assert_eq!(exp.0, iat.0 + 10);
    assert!(NumericDate::now().0 >= iat.0);
}
