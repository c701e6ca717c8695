//! The cookies that carry a request's tokens and ceremony identifier.
use vstd::prelude::*;

use crate::payload::{claim_text, lemma_claim_text_injective, renders, string_of, well_formed, ClaimSet};
use crate::session::{id_text, parse_id, SessionId};
use crate::token::{
    accepted, encoded, jws_claims, valid_at, NumericDate, Token, TokenAuthority, TokenError,
};

verus! {

/// What the cookies of one request hold: an optional refresh token, an
/// optional session token, and an optional ceremony identifier.
#[derive(Debug)]
pub struct Cookies {
    pub refresh: Option<Token>,
    pub session: Option<Token>,
    pub status: Option<SessionId>,
}

pub struct CookiesView {
    pub refresh: Option<ClaimSet>,
    pub session: Option<ClaimSet>,
    pub status: Option<SessionId>,
}

pub open spec fn token_view(t: Option<Token>) -> Option<ClaimSet> {
    match t {
        Some(t) => Some(t@),
        None => None,
    }
}

impl View for Cookies {
    type V = CookiesView;

    open spec fn view(&self) -> CookiesView {
        CookiesView {
            refresh: token_view(self.refresh),
            session: token_view(self.session),
            status: self.status,
        }
    }
}

/// `t` where it is of the kind named (refresh or session), else nothing.
pub open spec fn of_kind(t: Option<ClaimSet>, refresh: bool) -> Option<ClaimSet> {
    match t {
        Some(c) => if c.refresh == refresh {
            Some(c)
        } else {
            None
        },
        None => None,
    }
}

/// What the `status` cookie's text names, where there is such a cookie.
pub open spec fn status_of(text: Option<&str>) -> Option<SessionId> {
    match text {
        Some(s) => parse_id(s@),
        None => None,
    }
}

pub open spec fn name_refresh() -> Seq<char> {
    seq!['r', 'e', 'f', 'r', 'e', 's', 'h']
}

pub open spec fn name_session() -> Seq<char> {
    seq!['s', 'e', 's', 's', 'i', 'o', 'n']
}

pub open spec fn name_status() -> Seq<char> {
    seq!['s', 't', 'a', 't', 'u', 's']
}

/// A cookie to set on a response.
#[derive(Debug)]
pub struct SetCookie {
    pub name: String,
    pub value: String,
    pub domain: String,
    pub http_only: bool,
    pub secure: bool,
    pub same_site_strict: bool,
    /// An explicit removal: an empty value that expires at once.
    pub removal: bool,
}

/// The claims that a signed cookie value carries: those of its payload, where
/// its signature checks under `key` and the payload is accepted for `issuer`
/// at `now`.
pub open spec fn read_back(value: Option<&str>, key: Seq<u8>, issuer: Seq<char>, now: u64) -> Option<
    ClaimSet,
> {
    match value {
        Some(v) => match jws_claims(key, v@) {
            Some(text) => accepted(text, issuer, now),
            None => None,
        },
        None => None,
    }
}

/// The cookie `c` is named `name`, is scoped to `host`, and carries every
/// security attribute.
pub open spec fn hardened(c: SetCookie, name: Seq<char>, host: Seq<char>) -> bool {
    &&& c.name@ == name
    &&& c.domain@ == host
    &&& c.http_only
    &&& c.secure
    &&& c.same_site_strict
}

/// The cookie `c` removes what it names, or sets it.
pub open spec fn removes(c: SetCookie) -> bool {
    c.removal && c.value@.len() == 0
}

fn named(name: Vec<char>, value: String, removal: bool, auth: &TokenAuthority) -> (r: SetCookie)
    ensures
        hardened(r, name@, auth.issuer()),
        r.value@ == value@,
        r.removal == removal,
{
    SetCookie {
        name: string_of(&name),
        value,
        domain: auth.host().to_owned(),
        http_only: true,
        secure: true,
        same_site_strict: true,
        removal,
    }
}

fn refresh_name() -> (r: Vec<char>)
    ensures
        r@ == name_refresh(),
{
    let r = vec!['r', 'e', 'f', 'r', 'e', 's', 'h'];
    assert(r@ =~= name_refresh());
    r
}

fn session_name() -> (r: Vec<char>)
    ensures
        r@ == name_session(),
{
    let r = vec!['s', 'e', 's', 's', 'i', 'o', 'n'];
    assert(r@ =~= name_session());
    r
}

fn status_name() -> (r: Vec<char>)
    ensures
        r@ == name_status(),
{
    let r = vec!['s', 't', 'a', 't', 'u', 's'];
    assert(r@ =~= name_status());
    r
}

/// Every token present signs with the key `key`.
pub open spec fn signs(t: Option<ClaimSet>, key: Seq<u8>) -> bool {
    match t {
        Some(c) => encoded(c, key) is Some,
        None => true,
    }
}

/// The cookie `c` carries the signed text of `t`, or removes it where there is
/// no token.
pub open spec fn carries(c: SetCookie, t: Option<ClaimSet>, key: Seq<u8>) -> bool {
    match t {
        Some(claims) => !c.removal && encoded(claims, key) == Some(c.value@),
        None => removes(c),
    }
}

/// The error that encoding `t` with the key `key` ends in, where it does.
pub open spec fn fails_with(t: Option<ClaimSet>, key: Seq<u8>, e: TokenError) -> bool {
    match t {
        Some(c) => encoded(c, key) is None && e == TokenError::Signing,
        None => false,
    }
}

/// The cookie named `name` that carries `token`, or removes it.
fn token_cookie(name: Vec<char>, token: &Option<Token>, auth: &TokenAuthority) -> (r: Result<
    SetCookie,
    TokenError,
>)
    ensures
        match r {
            Ok(c) => {
                &&& hardened(c, name@, auth.issuer())
                &&& carries(c, token_view(*token), auth.signing_key())
            },
            Err(e) => fails_with(token_view(*token), auth.signing_key(), e),
        },
{
    match token {
        Some(t) => match t.encode(auth) {
            Ok(text) => Ok(named(name, text, false, auth)),
            Err(e) => Err(e),
        },
        None => Ok(named(name, String::new(), true, auth)),
    }
}

impl Cookies {
    /// Keeps each token only where its kind is the one that its cookie names:
    /// a session token in the `refresh` cookie is dropped, and the other way
    /// round.
    pub fn from_parts(refresh: Option<Token>, session: Option<Token>, status: Option<SessionId>) -> (r: Cookies)
        ensures
            r@.refresh == of_kind(token_view(refresh), true),
            r@.session == of_kind(token_view(session), false),
            r@.status == status,
    {
        let refresh = match refresh {
            Some(t) => if t.is_refresh() {
                Some(t)
            } else {
                None
            },
            None => None,
        };
        let session = match session {
            Some(t) => if t.is_session() {
                Some(t)
            } else {
                None
            },
            None => None,
        };
        Cookies { refresh, session, status }
    }

    /// Reads the cookies of a request from the values of its `refresh`,
    /// `session` and `status` cookies. Each is read on its own; one that does
    /// not decode, or names a token of the other kind, counts as absent.
    pub fn from_values(
        auth: &TokenAuthority,
        now: NumericDate,
        refresh: Option<&str>,
        session: Option<&str>,
        status: Option<&str>,
    ) -> (r: Cookies)
        ensures
            refresh is None ==> r@.refresh is None,
            session is None ==> r@.session is None,
            r@.refresh matches Some(c) ==> c.refresh && well_formed(c) && valid_at(c, auth.issuer(), now.0),
            r@.session matches Some(c) ==> !c.refresh && well_formed(c) && valid_at(c, auth.issuer(), now.0),
            r@.refresh is None || r@.refresh == of_kind(
                read_back(refresh, auth.verifying_key(), auth.issuer(), now.0),
                true,
            ),
            r@.session is None || r@.session == of_kind(
                read_back(session, auth.verifying_key(), auth.issuer(), now.0),
                false,
            ),
            of_kind(read_back(refresh, auth.verifying_key(), auth.issuer(), now.0), true) is None
                ==> r@.refresh is None,
            of_kind(read_back(session, auth.verifying_key(), auth.issuer(), now.0), false) is None
                ==> r@.session is None,
            r@.status == status_of(status),
    {
        let refresh = match refresh {
            Some(v) => match Token::decode(v, auth, now) {
                Ok(t) => Some(t),
                Err(_) => None,
            },
            None => None,
        };
        let session = match session {
            Some(v) => match Token::decode(v, auth, now) {
                Ok(t) => Some(t),
                Err(_) => None,
            },
            None => None,
        };
        let status = match status {
            Some(v) => SessionId::parse(v),
            None => None,
        };
        Cookies::from_parts(refresh, session, status)
    }

    /// The cookies to set on a response, in the order `refresh`, `session`,
    /// `status`: each carries its value, or removes it where the field is
    /// empty, and each is scoped to the server's host with every security
    /// attribute.
    pub fn as_cookies(&self, auth: &TokenAuthority) -> (r: Result<Vec<SetCookie>, TokenError>)
        ensures
            (r is Ok) == (signs(self@.refresh, auth.signing_key()) && signs(
                self@.session,
                auth.signing_key(),
            )),
            match r {
                Ok(cs) => {
                    &&& cs.len() == 3
                    &&& hardened(cs[0], name_refresh(), auth.issuer())
                    &&& hardened(cs[1], name_session(), auth.issuer())
                    &&& hardened(cs[2], name_status(), auth.issuer())
                    &&& carries(cs[0], self@.refresh, auth.signing_key())
                    &&& carries(cs[1], self@.session, auth.signing_key())
                    &&& match self.status {
                        Some(id) => !cs[2].removal && cs[2].value@ == id_text(id),
                        None => removes(cs[2]),
                    }
                },
                Err(e) => {
                    ||| fails_with(self@.refresh, auth.signing_key(), e)
                    ||| fails_with(self@.session, auth.signing_key(), e)
                },
            },
    {
        let refresh = match token_cookie(refresh_name(), &self.refresh, auth) {
            Ok(c) => c,
            Err(e) => return Err(e),
        };
        let session = match token_cookie(session_name(), &self.session, auth) {
            Ok(c) => c,
            Err(e) => return Err(e),
        };
        let status = match self.status {
            Some(id) => named(status_name(), id.to_text(), false, auth),
            None => named(status_name(), String::new(), true, auth),
        };
        Ok(vec![refresh, session, status])
    }
}

/// A session token, carried in the `refresh` cookie, never fills the refresh
/// field: whatever is accepted from its claim text is of the session kind.
pub proof fn lemma_session_token_not_refresh(c: ClaimSet, issuer: Seq<char>, now: u64)
    requires
        well_formed(c),
        !c.refresh,
    ensures
        of_kind(accepted(claim_text(c), issuer, now), true) is None,
{
    let text = claim_text(c);
    if exists|c2: ClaimSet| renders(c2, text) && valid_at(c2, issuer, now) {
        let c2 = choose|c2: ClaimSet| renders(c2, text) && valid_at(c2, issuer, now);
        lemma_claim_text_injective(c2, c);
    }
}

} // verus!
