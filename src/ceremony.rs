//! The decisions of the registration and authentication ("claim") ceremonies
//! and of token rotation. Each step takes what the request, the store and the
//! ceremony engine gave, and says what to answer; the caller performs the
//! engine calls and the repository writes between the steps.
use vstd::prelude::*;

use crate::cookies::{Cookies, CookiesView};
use crate::payload::{claim_text, well_formed, ClaimSet};
use crate::session::SessionId;
use crate::store::{after_get, Store};
use crate::token::{
    accepted, audience, lemma_claim_text_round_trip, later, uuid_shaped, NumericDate, Token,
    TokenAuthority, TokenId, REFRESH_LIFETIME, SESSION_LIFETIME,
};

verus! {

/// The status of a reply.
#[derive(Clone, Copy, Debug, PartialEq, Eq, Structural)]
pub enum HttpStatus {
    Success,
    Accepted,
    BadRequest,
    Unauthorized,
    InternalServerError,
}

/// The body of a reply.
#[derive(Clone, Copy, Debug, PartialEq, Eq, Structural)]
pub enum ReplyBody {
    Empty,
    /// The challenge that the ceremony engine issued.
    Challenge,
    /// Whether the ceremony engine accepted the registration.
    Verdict(bool),
}

/// What to answer to a request: a status, the cookies to set (none for no
/// cookie change), and a body.
#[derive(Debug)]
pub struct Reply {
    pub status: HttpStatus,
    pub cookies: Option<Cookies>,
    pub body: ReplyBody,
}

/// The step of a ceremony that a request asks for.
#[derive(Clone, Copy, Debug, PartialEq, Eq, Structural)]
pub enum Phase {
    /// No status cookie and no body: start a ceremony.
    Begin,
    /// A status cookie and a body: finish the ceremony it names.
    Finish(SessionId),
    /// Any other shape: refuse.
    Reject,
}

pub open spec fn phase_of(status: Option<SessionId>, has_body: bool) -> Phase {
    match status {
        None => if has_body {
            Phase::Reject
        } else {
            Phase::Begin
        },
        Some(id) => if has_body {
            Phase::Finish(id)
        } else {
            Phase::Reject
        },
    }
}

/// The cookies `v` with the status cookie cleared.
pub open spec fn cleared(v: CookiesView) -> CookiesView {
    CookiesView { status: None, ..v }
}

/// `c` is a refresh token just issued by `issuer`.
pub open spec fn fresh_refresh(c: ClaimSet, issuer: Seq<char>) -> bool {
    &&& c.refresh
    &&& well_formed(c)
    &&& c.iss == issuer
    &&& c.aud == audience()
    &&& c.exp == later(c.iat, REFRESH_LIFETIME)
}

/// `c` is a session token just issued by `issuer`.
pub open spec fn fresh_session(c: ClaimSet, issuer: Seq<char>) -> bool {
    &&& !c.refresh
    &&& well_formed(c)
    &&& c.iss == issuer
    &&& c.aud == audience()
    &&& c.exp == later(c.iat, SESSION_LIFETIME)
}

/// Which step of a ceremony a request asks for.
pub fn phase(status: Option<SessionId>, has_body: bool) -> (r: Phase)
    ensures
        r == phase_of(status, has_body),
{
    match status {
        None => if has_body {
            Phase::Reject
        } else {
            Phase::Begin
        },
        Some(id) => if has_body {
            Phase::Finish(id)
        } else {
            Phase::Reject
        },
    }
}

/// The answer to a request of the wrong shape: 400, with no side effect.
pub fn reject() -> (r: Reply)
    ensures
        r.status == HttpStatus::BadRequest,
        r.cookies is None,
        r.body == ReplyBody::Empty,
{
    Reply { status: HttpStatus::BadRequest, cookies: None, body: ReplyBody::Empty }
}

/// Starts a ceremony under the identifier `id`: where its slot is free, stores
/// the engine's ceremony state `state` there and sets the status cookie to it
/// (202, with the challenge); where it is taken, a broken invariant: 500, and
/// nothing stored.
pub fn begin_with<S: Store>(store: &mut S, cookies: Cookies, state: Vec<u8>, id: SessionId) -> (r: Reply)
    ensures
        (r.status == HttpStatus::Accepted) == !old(store).contents().contains_key(id.0),
        r.status == HttpStatus::Accepted ==> {
            &&& r.body == ReplyBody::Challenge
            &&& final(store).contents() == old(store).contents().insert(id.0, state@)
            &&& r.cookies matches Some(c) && c@ == (CookiesView { status: Some(id), ..cookies@ })
        },
        r.status != HttpStatus::Accepted ==> {
            &&& r.status == HttpStatus::InternalServerError
            &&& final(store).contents() == old(store).contents()
            &&& r.cookies is None
            &&& r.body == ReplyBody::Empty
        },
{
    if store.set(id, state) {
        let mut cookies = cookies;
        cookies.status = Some(id);
        Reply { status: HttpStatus::Accepted, cookies: Some(cookies), body: ReplyBody::Challenge }
    } else {
        Reply { status: HttpStatus::InternalServerError, cookies: None, body: ReplyBody::Empty }
    }
}

/// Starts a ceremony under a fresh identifier, drawn at random (see
/// `begin_with`). On an empty store it always succeeds.
pub fn begin<S: Store>(store: &mut S, cookies: Cookies, state: Vec<u8>) -> (r: Reply)
    ensures
        r.status == HttpStatus::Accepted || r.status == HttpStatus::InternalServerError,
        old(store).contents() == Map::<u128, Seq<u8>>::empty() ==> r.status == HttpStatus::Accepted,
        r.status == HttpStatus::Accepted ==> {
            &&& r.body == ReplyBody::Challenge
            &&& r.cookies matches Some(c) && c@.status matches Some(id) && {
                &&& !old(store).contents().contains_key(id.0)
                &&& final(store).contents() == old(store).contents().insert(id.0, state@)
                &&& c@.refresh == cookies@.refresh
                &&& c@.session == cookies@.session
            }
        },
        r.status == HttpStatus::InternalServerError ==> {
            &&& final(store).contents() == old(store).contents()
            &&& r.cookies is None
            &&& r.body == ReplyBody::Empty
        },
{
    begin_with(store, cookies, state, SessionId::new())
}

/// The outcome of taking a ceremony's state at its finish.
#[derive(Debug)]
pub enum Taken {
    /// No state under the identifier (expired, already taken, or forged): the
    /// reply to send.
    Missing(Reply),
    /// The state, for the ceremony engine, and the cookies with the status
    /// cookie cleared.
    Found { state: Vec<u8>, cookies: Cookies },
}

pub open spec fn taken_bytes(t: Taken) -> Option<Seq<u8>> {
    match t {
        Taken::Missing(_) => None,
        Taken::Found { state, .. } => Some(state@),
    }
}

/// Takes the state of the ceremony `id` out of the store; the status cookie is
/// cleared either way. Where there is none, the reply is 400 with the status
/// cookie cleared.
pub fn take<S: Store>(store: &mut S, cookies: Cookies, id: SessionId) -> (r: Taken)
    ensures
        (final(store).contents(), taken_bytes(r)) == after_get(old(store).contents(), id.0),
        match r {
            Taken::Missing(reply) => {
                &&& reply.status == HttpStatus::BadRequest
                &&& reply.body == ReplyBody::Empty
                &&& reply.cookies matches Some(c) && c@ == cleared(cookies@)
            },
            Taken::Found { cookies: c, .. } => c@ == cleared(cookies@),
        },
{
    let mut cookies = cookies;
    cookies.status = None;
    match store.get(id) {
        Some(state) => Taken::Found { state, cookies },
        None => Taken::Missing(
            Reply { status: HttpStatus::BadRequest, cookies: Some(cookies), body: ReplyBody::Empty },
        ),
    }
}

/// Ends a registration: 200, with the engine's verdict as the body, and the
/// cookies as `take` left them. An engine refusal is a verdict, not an error.
pub fn registration_verdict(cookies: Cookies, registered: bool) -> (r: Reply)
    ensures
        r.status == HttpStatus::Success,
        r.body == ReplyBody::Verdict(registered),
        r.cookies matches Some(c) && c@ == cleared(cookies@),
{
    let mut cookies = cookies;
    cookies.status = None;
    Reply { status: HttpStatus::Success, cookies: Some(cookies), body: ReplyBody::Verdict(registered) }
}

/// Ends an authentication: 200 with an empty body either way, the status
/// cookie cleared, and a new refresh token only where the engine verified the
/// response.
pub fn authentication_verdict(cookies: Cookies, verified: bool, auth: &TokenAuthority) -> (r: Reply)
    ensures
        r.status == HttpStatus::Success,
        r.body == ReplyBody::Empty,
        r.cookies matches Some(c) && {
            &&& c@.status is None
            &&& c@.session == cookies@.session
            &&& verified ==> (c@.refresh matches Some(t) && fresh_refresh(t, auth.issuer()))
            &&& !verified ==> c@.refresh == cookies@.refresh
        },
{
    let mut cookies = cookies;
    if verified {
        cookies.refresh = Some(Token::issue_refresh(auth));
    }
    cookies.status = None;
    Reply { status: HttpStatus::Success, cookies: Some(cookies), body: ReplyBody::Empty }
}

/// The first decision of a claim request.
#[derive(Debug)]
pub enum ClaimStep {
    /// The request carried a valid refresh token: it is replaced by a new one,
    /// and this is the reply; no ceremony takes place.
    Renewed(Reply),
    /// No refresh token: the ceremony step asked for, and the cookies.
    Ceremony(Cookies, Phase),
}

/// The refresh token that a renewal by `issuer` at `now` with the id `jti`
/// hands out.
pub open spec fn renewal(issuer: Seq<char>, now: u64, jti: Seq<char>) -> ClaimSet {
    ClaimSet {
        refresh: true,
        iss: issuer,
        aud: audience(),
        exp: later(now, REFRESH_LIFETIME),
        iat: now,
        jti,
    }
}

/// Decides a claim request at the time `now`, with `jti` as the id of a
/// renewed token: a valid refresh token is renewed at once, without the
/// ceremony engine; otherwise the ceremony goes on as for registration.
pub fn claim_step_at(
    cookies: Cookies,
    has_body: bool,
    auth: &TokenAuthority,
    now: NumericDate,
    jti: TokenId,
) -> (r: ClaimStep)
    ensures
        match r {
            ClaimStep::Renewed(reply) => {
                &&& cookies@.refresh is Some
                &&& reply.status == HttpStatus::Success
                &&& reply.body == ReplyBody::Empty
                &&& reply.cookies matches Some(c) && c@ == (CookiesView {
                    refresh: Some(renewal(auth.issuer(), now.0, jti@)),
                    ..cookies@
                })
                &&& well_formed(renewal(auth.issuer(), now.0, jti@))
            },
            ClaimStep::Ceremony(c, p) => {
                &&& cookies@.refresh is None
                &&& c@ == cookies@
                &&& p == phase_of(cookies@.status, has_body)
            },
        },
{
    if cookies.refresh.is_some() {
        let mut cookies = cookies;
        cookies.refresh = Some(Token::refresh_at(auth, now, jti));
        ClaimStep::Renewed(
            Reply { status: HttpStatus::Success, cookies: Some(cookies), body: ReplyBody::Empty },
        )
    } else {
        let p = phase(cookies.status, has_body);
        ClaimStep::Ceremony(cookies, p)
    }
}

/// Decides a claim request now (see `claim_step_at`), with a random id for a
/// renewed token.
pub fn claim_step(cookies: Cookies, has_body: bool, auth: &TokenAuthority) -> (r: ClaimStep)
    ensures
        match r {
            ClaimStep::Renewed(reply) => {
                &&& cookies@.refresh is Some
                &&& reply.status == HttpStatus::Success
                &&& reply.body == ReplyBody::Empty
                &&& reply.cookies matches Some(c) && {
                    &&& (c@.refresh matches Some(t) && fresh_refresh(t, auth.issuer())
                        && uuid_shaped(t.jti))
                    &&& c@.session == cookies@.session
                    &&& c@.status == cookies@.status
                }
            },
            ClaimStep::Ceremony(c, p) => {
                &&& cookies@.refresh is None
                &&& c@ == cookies@
                &&& p == phase_of(cookies@.status, has_body)
            },
        },
{
    claim_step_at(cookies, has_body, auth, NumericDate::now(), TokenId::fresh())
}

/// Rotation: a valid refresh token earns a new session token (200, with the
/// `session` cookie set); without one the answer is 401 and no cookie changes.
pub fn refresh(cookies: Cookies, auth: &TokenAuthority) -> (r: Reply)
    ensures
        r.body == ReplyBody::Empty,
        cookies@.refresh is None ==> r.status == HttpStatus::Unauthorized && r.cookies is None,
        cookies@.refresh is Some ==> {
            &&& r.status == HttpStatus::Success
            &&& r.cookies matches Some(c) && {
                &&& (c@.session matches Some(t) && fresh_session(t, auth.issuer()))
                &&& c@.refresh == cookies@.refresh
                &&& c@.status == cookies@.status
            }
        },
{
    if cookies.refresh.is_none() {
        return Reply { status: HttpStatus::Unauthorized, cookies: None, body: ReplyBody::Empty };
    }
    let mut cookies = cookies;
    cookies.session = Some(Token::issue_session(auth));
    Reply { status: HttpStatus::Success, cookies: Some(cookies), body: ReplyBody::Empty }
}

/// After a ceremony began by storing `state` under a fresh `id`, taking it at
/// the finish finds the state, and a second finish with the same `id` finds
/// nothing (and so is answered 400).
pub proof fn lemma_finish_once(m: Map<u128, Seq<u8>>, id: u128, state: Seq<u8>)
    requires
        !m.contains_key(id),
    ensures
        after_get(m.insert(id, state), id) == (m, Some(state)),
        after_get(m, id) == (m, None::<Seq<u8>>),
{
    assert(m.insert(id, state).remove(id) =~= m);
}

/// A renewal at a time later than the old refresh token's time of issue
/// hands out a refresh token with a strictly later time of issue, and with the
/// new id. (Times have whole seconds: a renewal within the second of the old
/// token's issue has the same time of issue.)
pub proof fn lemma_renewal_later(old: ClaimSet, issuer: Seq<char>, now: u64, jti: Seq<char>)
    requires
        old.iat < now,
    ensures
        renewal(issuer, now, jti).refresh,
        renewal(issuer, now, jti).iat > old.iat,
        renewal(issuer, now, jti).jti == jti,
{
}

/// The session token of a rotation, read back from its claim text at any time
/// of its life, is accepted as the same claims, and lives exactly the session
/// lifetime.
pub proof fn lemma_session_lifetime(c: ClaimSet, issuer: Seq<char>, now: u64)
    requires
        fresh_session(c, issuer),
        c.iat <= now < c.exp,
        c.iat + SESSION_LIFETIME <= u64::MAX,
    ensures
        accepted(claim_text(c), issuer, now) == Some(c),
        c.exp - c.iat == SESSION_LIFETIME,
{
    lemma_claim_text_round_trip(c, issuer, now);
}

} // verus!
