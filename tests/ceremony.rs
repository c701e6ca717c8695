use server::ceremony::{
    authentication_verdict, begin, begin_with, claim_step, claim_step_at, phase, refresh,
    registration_verdict, reject, take, ClaimStep, HttpStatus, Phase, ReplyBody, Taken,
};
use server::cookies::Cookies;
use server::session::SessionId;
use server::store::{InMemoryStore, Store};
use server::token::{Claims, NumericDate, Token, TokenAuthority, TokenId, SESSION_LIFETIME};

const SIGNING_KEY: &str = "MC4CAQAwBQYDK2VwBCIEIJ1hsZ3v/VpguoRK9JLsLMREScVpezJpGXA7rAMcrn9g";
const VERIFYING_KEY: &str = "11qYAYKxCrfVS/7TyWQHOg7hcvPapiMlrwIaaPcHURo=";

fn authority() -> TokenAuthority {
    TokenAuthority::new("example.com".to_string(), SIGNING_KEY, VERIFYING_KEY).unwrap()
}

fn no_cookies() -> Cookies {
    Cookies { refresh: None, session: None, status: None }
}

#[test]
fn phase_follows_status_and_body() {
    assert_eq!(phase(None, false), Phase::Begin);
    assert_eq!(phase(Some(SessionId(1)), true), Phase::Finish(SessionId(1)));
    assert_eq!(phase(None, true), Phase::Reject);
    assert_eq!(phase(Some(SessionId(1)), false), Phase::Reject);
    let r = reject();
    assert_eq!(r.status, HttpStatus::BadRequest);
    assert!(r.cookies.is_none());
}

#[test]
fn registration_happy_path_and_replay() {
    let mut store = InMemoryStore::new();
    let ck = no_cookies();
    assert_eq!(phase(ck.status, false), Phase::Begin);
    let reply = begin(&mut store, ck, vec![1, 2, 3]);
    assert_eq!(reply.status, HttpStatus::Accepted);
    assert_eq!(reply.body, ReplyBody::Challenge);
    let ck = reply.cookies.unwrap();
    let id = ck.status.unwrap();
    assert!(!store.is_empty(id));

    let replay = Cookies { refresh: None, session: None, status: Some(id) };
    match take(&mut store, ck, id) {
        Taken::Found { state, cookies } => {
            assert_eq!(state, vec![1, 2, 3]);
            assert!(cookies.status.is_none());
            let done = registration_verdict(cookies, true);
            assert_eq!(done.status, HttpStatus::Success);
            assert_eq!(done.body, ReplyBody::Verdict(true));
            assert!(done.cookies.unwrap().status.is_none());
        },
        Taken::Missing(_) => panic!("the ceremony state was stored"),
    }
    match take(&mut store, replay, id) {
        Taken::Missing(reply) => {
            assert_eq!(reply.status, HttpStatus::BadRequest);
            assert!(reply.cookies.unwrap().status.is_none());
        },
        Taken::Found { .. } => panic!("the ceremony state was taken already"),
    }
}

#[test]
fn engine_refusal_is_a_verdict() {
    let done = registration_verdict(Cookies { refresh: None, session: None, status: Some(SessionId(4)) }, false);
    assert_eq!(done.status, HttpStatus::Success);
    assert_eq!(done.body, ReplyBody::Verdict(false));
}

#[test]
fn claim_with_refresh_token_renews_it() {
    let auth = authority();
    let old = Token::Refresh {
        inner: Claims::checked(
            "example.com".to_string(),
            "client".to_string(),
            NumericDate(NumericDate::now().0 + 100),
            NumericDate(NumericDate::now().0 - 10),
            "old".to_string(),
        )
        .unwrap(),
    };
    let old_iat = old.claims().iat();
    let ck = Cookies { refresh: Some(old), session: None, status: None };
    match claim_step(ck, false, &auth) {
        ClaimStep::Renewed(reply) => {
            assert_eq!(reply.status, HttpStatus::Success);
            assert_eq!(reply.body, ReplyBody::Empty);
            let t = reply.cookies.unwrap().refresh.unwrap();
            assert!(t.is_refresh());
            assert!(t.claims().iat().0 > old_iat.0);
            assert_ne!(t.claims().jti(), "old");
        },
        ClaimStep::Ceremony(..) => panic!("a refresh token short-circuits the ceremony"),
    }
}

#[test]
fn claim_without_refresh_token_goes_to_the_ceremony() {
    let auth = authority();
    match claim_step(no_cookies(), false, &auth) {
        ClaimStep::Ceremony(_, p) => assert_eq!(p, Phase::Begin),
        ClaimStep::Renewed(_) => panic!("no refresh token"),
    }
    let ck = Cookies { refresh: None, session: None, status: Some(SessionId(8)) };
    match claim_step(ck, true, &auth) {
        ClaimStep::Ceremony(_, p) => assert_eq!(p, Phase::Finish(SessionId(8))),
        ClaimStep::Renewed(_) => panic!("no refresh token"),
    }
}

#[test]
fn authentication_verdict_issues_only_on_success() {
    let auth = authority();
    let ok = authentication_verdict(no_cookies(), true, &auth);
    assert_eq!(ok.status, HttpStatus::Success);
    assert!(ok.cookies.unwrap().refresh.unwrap().is_refresh());
    let refused = authentication_verdict(Cookies { refresh: None, session: None, status: Some(SessionId(2)) }, false, &auth);
    assert_eq!(refused.status, HttpStatus::Success);
    let ck = refused.cookies.unwrap();
    assert!(ck.refresh.is_none());
    assert!(ck.status.is_none());
}

#[test]
fn refresh_without_cookie_is_unauthorized() {
    let auth = authority();
    let r = refresh(no_cookies(), &auth);
    assert_eq!(r.status, HttpStatus::Unauthorized);
    assert!(r.cookies.is_none());
}

#[test]
fn refresh_sets_a_session_cookie_of_fixed_lifetime() {
    let auth = authority();
    let ck = Cookies { refresh: Some(Token::issue_refresh(&auth)), session: None, status: None };
    let r = refresh(ck, &auth);
    assert_eq!(r.status, HttpStatus::Success);
    let ck = r.cookies.unwrap();
    let out = ck.as_cookies(&auth).unwrap();
    assert_eq!(out[1].name, "session");
    let session = Token::decode(&out[1].value, &auth, NumericDate::now()).unwrap();
    assert!(session.is_session());
    assert_eq!(session.claims().exp().0 - session.claims().iat().0, SESSION_LIFETIME);
}

#[test]
fn begin_with_a_taken_id_is_an_internal_error() {
    let mut store = InMemoryStore::new();
    let first = begin_with(&mut store, no_cookies(), vec![1], SessionId(5));
    assert_eq!(first.status, HttpStatus::Accepted);
    assert_eq!(first.cookies.unwrap().status, Some(SessionId(5)));
    let second = begin_with(&mut store, no_cookies(), vec![2], SessionId(5));
    assert_eq!(second.status, HttpStatus::InternalServerError);
    assert!(second.cookies.is_none());
    assert_eq!(second.body, ReplyBody::Empty);
    assert_eq!(store.get(SessionId(5)), Some(vec![1]));
}

#[test]
fn renewal_at_a_given_time_is_issued_then() {
    let auth = authority();
    let old = Token::issue_refresh(&auth);
    let later = NumericDate(old.claims().iat().0 + 1);
    let ck = Cookies { refresh: Some(old), session: None, status: Some(SessionId(3)) };
    match claim_step_at(ck, false, &auth, later, TokenId::parse("new-id").unwrap()) {
        ClaimStep::Renewed(reply) => {
            let ck = reply.cookies.unwrap();
            let t = ck.refresh.unwrap();
            assert_eq!(t.claims().iat(), later);
            assert_eq!(t.claims().exp().0, later.0 + 345600);
            assert_eq!(t.claims().jti(), "new-id");
            assert_eq!(ck.status, Some(SessionId(3)));
        },
        ClaimStep::Ceremony(..) => panic!("a refresh token short-circuits the ceremony"),
    }
}
