//! Signed bearer tokens: a refresh token or a session token, each with the same
//! set of time-bounded claims.
use vstd::prelude::*;

use base64::Engine as _;

use crate::payload::{
    claim_chars, is_plain, lemma_claim_text_injective, parse_claims, plain_text, renders,
    string_of, well_formed, ClaimSet,
};

verus! {

/// How long a refresh token lives: four days, in seconds.
pub const REFRESH_LIFETIME: u64 = 345600;

/// How long a session token lives: one hour, in seconds.
pub const SESSION_LIFETIME: u64 = 3600;

/// The audience that every token names: the client application.
pub open spec fn audience() -> Seq<char> {
    seq!['c', 'l', 'i', 'e', 'n', 't']
}

/// Seconds since the Unix epoch.
#[derive(Clone, Copy, Debug, PartialEq, Eq, PartialOrd, Ord, Hash, Structural)]
pub struct NumericDate(pub u64);

/// `t + secs`, or the largest date where that does not fit.
pub open spec fn later(t: u64, secs: u64) -> u64 {
    if t + secs > u64::MAX {
        u64::MAX
    } else {
        (t + secs) as u64
    }
}

/// Relies on std's `SystemTime::elapsed`, taken from the Unix epoch: the whole
/// seconds from then to now, or `None` where the clock stands before it.
#[verifier::external_body]
fn seconds_since_epoch() -> Option<u64> {
    std::time::UNIX_EPOCH.elapsed().ok().map(|d| d.as_secs())
}

impl NumericDate {
    /// The current time; the epoch itself where the clock stands before it.
    pub fn now() -> NumericDate {
        match seconds_since_epoch() {
            Some(secs) => NumericDate(secs),
            None => NumericDate(0),
        }
    }

    /// The date `secs` seconds after this one, or the largest date where that
    /// does not fit.
    pub fn after_secs(&self, secs: u64) -> (r: NumericDate)
        ensures
            r.0 == later(self.0, secs),
    {
        NumericDate(self.0.saturating_add(secs))
    }
}

/// The time of issue (now) and the time of expiry `secs` seconds later.
pub fn available_time(secs: u64) -> (r: (NumericDate, NumericDate))
    ensures
        r.1.0 == later(r.0.0, secs),
{
    let now = NumericDate::now();
    let exp = now.after_secs(secs);
    (now, exp)
}

/// The claims that every token carries. Its strings never need a JSON escape,
/// so every token can be written as claim text and signed.
#[derive(Debug)]
pub struct Claims {
    iss: String,
    aud: String,
    exp: NumericDate,
    iat: NumericDate,
    jti: String,
}

/// The id of a token: a string that needs no JSON escape.
#[derive(Debug)]
pub struct TokenId {
    text: String,
}

impl View for TokenId {
    type V = Seq<char>;

    closed spec fn view(&self) -> Seq<char> {
        self.text@
    }
}

impl TokenId {
    #[verifier::type_invariant]
    spec fn inv(&self) -> bool {
        is_plain(self.text@)
    }

    /// A fresh, random id: a version-4 UUID.
    pub fn fresh() -> (r: TokenId)
        ensures
            uuid_shaped(r@),
    {
        let text = fresh_token_id();
        proof {
            lemma_uuid_plain(text@);
        }
        TokenId { text }
    }

    /// The id written `text`, where it needs no escape.
    pub fn parse(text: &str) -> (r: Option<TokenId>)
        ensures
            match r {
                Some(id) => is_plain(text@) && id@ == text@,
                None => !is_plain(text@),
            },
    {
        if plain_text(text) {
            Some(TokenId { text: text.to_owned() })
        } else {
            None
        }
    }

    pub fn as_str(&self) -> (r: &str)
        ensures
            r@ == self@,
            is_plain(self@),
    {
        proof {
            use_type_invariant(self);
        }
        self.text.as_str()
    }
}

impl Claims {
    #[verifier::type_invariant]
    spec fn inv(&self) -> bool {
        is_plain(self.iss@) && is_plain(self.aud@) && is_plain(self.jti@)
    }

    /// The claims with these values, where none of their strings needs an
    /// escape.
    pub fn checked(iss: String, aud: String, exp: NumericDate, iat: NumericDate, jti: String) -> (r:
        Option<Claims>)
        ensures
            match r {
                Some(c) => c.with_kind(true) == (ClaimSet {
                    refresh: true,
                    iss: iss@,
                    aud: aud@,
                    exp: exp.0,
                    iat: iat.0,
                    jti: jti@,
                }),
                None => !(is_plain(iss@) && is_plain(aud@) && is_plain(jti@)),
            },
    {
        if plain_text(iss.as_str()) && plain_text(aud.as_str()) && plain_text(jti.as_str()) {
            Some(Claims { iss, aud, exp, iat, jti })
        } else {
            None
        }
    }

    pub fn iss(&self) -> (r: &str)
        ensures
            r@ == self.with_kind(true).iss,
    {
        self.iss.as_str()
    }

    pub fn aud(&self) -> (r: &str)
        ensures
            r@ == self.with_kind(true).aud,
    {
        self.aud.as_str()
    }

    pub fn exp(&self) -> (r: NumericDate)
        ensures
            r.0 == self.with_kind(true).exp,
    {
        self.exp
    }

    pub fn iat(&self) -> (r: NumericDate)
        ensures
            r.0 == self.with_kind(true).iat,
    {
        self.iat
    }

    pub fn jti(&self) -> (r: &str)
        ensures
            r@ == self.with_kind(true).jti,
    {
        self.jti.as_str()
    }

    /// What these claims hold, as plain values, for a token of the kind given.
    pub closed spec fn with_kind(&self, refresh: bool) -> ClaimSet {
        ClaimSet {
            refresh,
            iss: self.iss@,
            aud: self.aud@,
            exp: self.exp.0,
            iat: self.iat.0,
            jti: self.jti@,
        }
    }
}

/// A token is a refresh token or a session token; the kind is part of what is
/// signed, and one kind is never accepted for the other.
#[derive(Debug)]
pub enum Token {
    Refresh { inner: Claims },
    Session { inner: Claims },
}

impl View for Token {
    type V = ClaimSet;

    open spec fn view(&self) -> ClaimSet {
        match self {
            Token::Refresh { inner } => inner.with_kind(true),
            Token::Session { inner } => inner.with_kind(false),
        }
    }
}

/// The claims `c` are valid for the issuer `issuer` at time `now`: they name
/// that issuer and the client audience, were not issued after `now`, and have
/// not expired.
pub open spec fn valid_at(c: ClaimSet, issuer: Seq<char>, now: u64) -> bool {
    &&& c.iss == issuer
    &&& c.aud == audience()
    &&& c.iat <= now
    &&& now < c.exp
}

/// The claims that the claim text `text` stands for, where it is the text of
/// a well-formed claim set that is valid for `issuer` at `now`.
pub open spec fn accepted(text: Seq<char>, issuer: Seq<char>, now: u64) -> Option<ClaimSet> {
    if exists|c: ClaimSet| renders(c, text) && valid_at(c, issuer, now) {
        Some(choose|c: ClaimSet| renders(c, text) && valid_at(c, issuer, now))
    } else {
        None
    }
}

/// Why a token could not be written or read.
#[derive(Clone, Copy, Debug, PartialEq, Eq, Structural)]
pub enum TokenError {
    /// The signing primitive refused.
    Signing,
    /// The token is not one that this authority issued and that is valid now.
    Invalid,
}

/// Why a token authority could not be set up.
#[derive(Clone, Copy, Debug, PartialEq, Eq, Structural)]
pub enum KeyError {
    /// The host name holds a character that needs an escape.
    Host,
    /// The signing key is not standard base64.
    EncodingKey,
    /// The verifying key is not standard base64.
    DecodingKey,
}

#[verifier::external_type_specification]
#[verifier::external_body]
pub struct ExJwtError(jsonwebtoken::errors::Error);

#[verifier::external_type_specification]
#[verifier::external_body]
pub struct ExDecodeError(base64::DecodeError);

/// What standard, padded base64 decoding makes of `s`: its bytes, or `None`.
pub uninterp spec fn base64_standard(s: Seq<char>) -> Option<Seq<u8>>;

/// Relies on base64's `STANDARD` engine and its `decode`: the bytes that `s`
/// encodes, or an error, as a function of `s` alone.
#[verifier::external_body]
fn decode_base64(s: &str) -> (r: Result<Vec<u8>, base64::DecodeError>)
    ensures
        match r {
            Ok(b) => base64_standard(s@) == Some(b@),
            Err(_) => base64_standard(s@) is None,
        },
{
    base64::engine::general_purpose::STANDARD.decode(s)
}

/// The compact token that jsonwebtoken's `encode` writes for the claim text
/// `claims` under a header that names EdDSA, signed with the Ed25519 key whose
/// PKCS#8 DER bytes are `key`; `None` where the key or the text is refused.
pub uninterp spec fn eddsa_jws(key: Seq<u8>, claims: Seq<char>) -> Option<Seq<char>>;

/// The JSON text of the payload of the compact token `token`, where `token` is
/// signed with EdDSA and its signature checks under the Ed25519 public key
/// `key`; `None` otherwise.
pub uninterp spec fn jws_claims(key: Seq<u8>, token: Seq<char>) -> Option<Seq<char>>;

/// Relies on jsonwebtoken's `encode`, with the header `Header::new(EdDSA)`,
/// the key that `EncodingKey::from_ed_der` reads from `key`, and `claims`
/// handed over verbatim as a serde_json `RawValue`. Ed25519 signing is
/// deterministic, so the result is a function of the key and the claims.
#[verifier::external_body]
fn sign(key: &Vec<u8>, claims: &str) -> (r: Result<String, jsonwebtoken::errors::Error>)
    ensures
        match r {
            Ok(s) => eddsa_jws(key@, claims@) == Some(s@),
            Err(_) => eddsa_jws(key@, claims@) is None,
        },
{
    let header = jsonwebtoken::Header::new(jsonwebtoken::Algorithm::EdDSA);
    let raw = serde_json::value::RawValue::from_string(claims.to_owned())?;
    jsonwebtoken::encode(&header, &raw, &jsonwebtoken::EncodingKey::from_ed_der(key))
}

/// Relies on jsonwebtoken's `decode`, with `Validation::new(EdDSA)` that
/// accepts the one audience `aud` and the one issuer `iss`, and the key that
/// `DecodingKey::from_ed_der` reads from `key`. Its expiry check reads the
/// clock, so whether it succeeds is no function of the arguments; what it
/// hands back is the payload, as signed, of a token whose EdDSA signature
/// checks under `key`.
#[verifier::external_body]
fn verify(token: &str, key: &Vec<u8>, aud: &str, iss: &str) -> (r: Result<String, jsonwebtoken::errors::Error>)
    ensures
        match r {
            Ok(text) => jws_claims(key@, token@) == Some(text@),
            Err(_) => true,
        },
{
    let mut validation = jsonwebtoken::Validation::new(jsonwebtoken::Algorithm::EdDSA);
    validation.set_audience(&[aud]);
    validation.set_issuer(&[iss]);
    let key = jsonwebtoken::DecodingKey::from_ed_der(key);
    jsonwebtoken::decode::<Box<serde_json::value::RawValue>>(token, &key, &validation).map(
        |d| d.claims.get().to_owned(),
    )
}

/// The compact token that carries the claims `c`, signed with the key `key`:
/// none where the signing primitive refuses.
pub open spec fn encoded(c: ClaimSet, key: Seq<u8>) -> Option<Seq<char>> {
    eddsa_jws(key, crate::payload::claim_text(c))
}

/// Whether a token id has the shape of a written UUID: 36 lowercase
/// hexadecimal digits and hyphens.
pub open spec fn uuid_shaped(s: Seq<char>) -> bool {
    &&& s.len() == 36
    &&& forall|i: int|
        0 <= i < 36 ==> ('0' <= #[trigger] s[i] <= '9' || 'a' <= s[i] <= 'f' || s[i] == '-')
}

pub(crate) proof fn lemma_uuid_plain(s: Seq<char>)
    requires
        uuid_shaped(s),
    ensures
        is_plain(s),
{
    assert forall|i: int| 0 <= i < s.len() implies crate::payload::plain_char(#[trigger] s[i]) by {
        assert('0' <= s[i] <= '9' || 'a' <= s[i] <= 'f' || s[i] == '-');
    }
}

/// Relies on uuid's `Uuid::new_v4` and its `Display`: a random version-4 UUID,
/// written as 36 lowercase hexadecimal digits and hyphens.
#[verifier::external_body]
pub(crate) fn fresh_token_id() -> (r: String)
    ensures
        uuid_shaped(r@),
{
    uuid::Uuid::new_v4().to_string()
}

fn audience_text() -> (r: String)
    ensures
        r@ == audience(),
{
    let cs = vec!['c', 'l', 'i', 'e', 'n', 't'];
    assert(cs@ =~= audience());
    string_of(&cs)
}

/// The server's token issuer: its host name and its keys.
pub struct TokenAuthority {
    host: String,
    signing: Vec<u8>,
    verifying: Vec<u8>,
}

impl TokenAuthority {
    #[verifier::type_invariant]
    spec fn inv(&self) -> bool {
        is_plain(self.host@)
    }

    /// The issuer named in the tokens of this authority: its host name.
    pub closed spec fn issuer(&self) -> Seq<char> {
        self.host@
    }

    /// The PKCS#8 DER bytes of the Ed25519 key that signs.
    pub closed spec fn signing_key(&self) -> Seq<u8> {
        self.signing@
    }

    /// The bytes of the Ed25519 public key that verifies.
    pub closed spec fn verifying_key(&self) -> Seq<u8> {
        self.verifying@
    }

    /// An authority for `host`, from an Ed25519 key pair given as DER bytes in
    /// standard base64.
    pub fn new(host: String, encoding_der: &str, decoding_der: &str) -> (r: Result<
        TokenAuthority,
        KeyError,
    >)
        ensures
            match r {
                Ok(a) => {
                    &&& a.issuer() == host@
                    &&& is_plain(host@)
                    &&& base64_standard(encoding_der@) == Some(a.signing_key())
                    &&& base64_standard(decoding_der@) == Some(a.verifying_key())
                },
                Err(KeyError::Host) => !is_plain(host@),
                Err(KeyError::EncodingKey) => is_plain(host@) && base64_standard(encoding_der@) is None,
                Err(KeyError::DecodingKey) => {
                    &&& is_plain(host@)
                    &&& base64_standard(encoding_der@) is Some
                    &&& base64_standard(decoding_der@) is None
                },
            },
    {
        if !plain_text(host.as_str()) {
            return Err(KeyError::Host);
        }
        let enc = match decode_base64(encoding_der) {
            Ok(b) => b,
            Err(_) => return Err(KeyError::EncodingKey),
        };
        let dec = match decode_base64(decoding_der) {
            Ok(b) => b,
            Err(_) => return Err(KeyError::DecodingKey),
        };
        Ok(TokenAuthority { host, signing: enc, verifying: dec })
    }

    /// The host name of this authority.
    pub fn host(&self) -> (r: &str)
        ensures
            r@ == self.issuer(),
            is_plain(self.issuer()),
    {
        proof {
            use_type_invariant(self);
        }
        self.host.as_str()
    }
}

impl Claims {
    /// Fresh claims of `auth`, issued at `now`, that expire `lifetime` seconds
    /// later, with the token id `jti`.
    pub fn issued_at(auth: &TokenAuthority, now: NumericDate, lifetime: u64, jti: TokenId) -> (r: Claims)
        ensures
            r.with_kind(true) == (ClaimSet {
                refresh: true,
                iss: auth.issuer(),
                aud: audience(),
                exp: later(now.0, lifetime),
                iat: now.0,
                jti: jti@,
            }),
    {
        proof {
            assert forall|i: int| 0 <= i < audience().len() implies crate::payload::plain_char(
                #[trigger] audience()[i],
            ) by {}
        }
        Claims {
            iss: auth.host().to_owned(),
            aud: audience_text(),
            exp: now.after_secs(lifetime),
            iat: now,
            jti: jti.as_str().to_owned(),
        }
    }

    /// Fresh claims of `auth`, issued now, that expire `lifetime` seconds later,
    /// with a random token id.
    fn new(auth: &TokenAuthority, lifetime: u64) -> (r: Claims)
        ensures
            well_formed(r.with_kind(true)),
            r.with_kind(true).iss == auth.issuer(),
            r.with_kind(true).aud == audience(),
            r.with_kind(true).exp == later(r.with_kind(true).iat, lifetime),
            uuid_shaped(r.with_kind(true).jti),
    {
        let (from, _) = available_time(lifetime);
        let r = Claims::issued_at(auth, from, lifetime, TokenId::fresh());
        proof {
            use_type_invariant(&r);
        }
        r
    }
}

impl Token {
    /// The `sub` claim that names the kind of this token.
    pub fn sub(&self) -> (r: &'static str)
        ensures
            r@ == crate::payload::kind_word(self@.refresh),
    {
        proof {
            reveal_strlit("refresh");
            reveal_strlit("session");
        }
        match self {
            Token::Refresh { .. } => {
                let r = "refresh";
                assert(r@ =~= crate::payload::word_refresh());
                r
            },
            Token::Session { .. } => {
                let r = "session";
                assert(r@ =~= crate::payload::word_session());
                r
            },
        }
    }

    pub fn is_refresh(&self) -> (r: bool)
        ensures
            r == self@.refresh,
    {
        matches!(self, Token::Refresh { .. })
    }

    pub fn is_session(&self) -> (r: bool)
        ensures
            r == !self@.refresh,
    {
        matches!(self, Token::Session { .. })
    }

    /// The claims of this token, whatever its kind.
    pub fn claims(&self) -> (r: &Claims)
        ensures
            r.with_kind(self@.refresh) == self@,
            r.with_kind(true).iss == self@.iss,
            r.with_kind(true).aud == self@.aud,
            r.with_kind(true).exp == self@.exp,
            r.with_kind(true).iat == self@.iat,
            r.with_kind(true).jti == self@.jti,
            well_formed(self@),
    {
        match self {
            Token::Refresh { inner } => {
                proof {
                    use_type_invariant(inner);
                }
                inner
            },
            Token::Session { inner } => {
                proof {
                    use_type_invariant(inner);
                }
                inner
            },
        }
    }

    /// The refresh token of `auth` issued at `now` with the id `jti`.
    pub fn refresh_at(auth: &TokenAuthority, now: NumericDate, jti: TokenId) -> (r: Token)
        ensures
            r@ == (ClaimSet {
                refresh: true,
                iss: auth.issuer(),
                aud: audience(),
                exp: later(now.0, REFRESH_LIFETIME),
                iat: now.0,
                jti: jti@,
            }),
            well_formed(r@),
    {
        let inner = Claims::issued_at(auth, now, REFRESH_LIFETIME, jti);
        proof {
            use_type_invariant(&inner);
        }
        Token::Refresh { inner }
    }

    /// A new refresh token of `auth`: issued now, for four days, with a fresh id.
    pub fn issue_refresh(auth: &TokenAuthority) -> (r: Token)
        ensures
            r@.refresh,
            well_formed(r@),
            r@.iss == auth.issuer(),
            r@.aud == audience(),
            r@.exp == later(r@.iat, REFRESH_LIFETIME),
            uuid_shaped(r@.jti),
    {
        Token::Refresh { inner: Claims::new(auth, REFRESH_LIFETIME) }
    }

    /// A new session token of `auth`: issued now, for one hour, with a fresh id.
    pub fn issue_session(auth: &TokenAuthority) -> (r: Token)
        ensures
            !r@.refresh,
            well_formed(r@),
            r@.iss == auth.issuer(),
            r@.aud == audience(),
            r@.exp == later(r@.iat, SESSION_LIFETIME),
            uuid_shaped(r@.jti),
    {
        let inner = Claims::new(auth, SESSION_LIFETIME);
        Token::Session { inner }
    }

    /// The claim text of this token, the payload that is signed.
    pub fn claim_text(&self) -> (r: String)
        ensures
            r@ == crate::payload::claim_text(self@),
    {
        let c = self.claims();
        let cs = claim_chars(
            self.is_refresh(),
            c.iss.as_str(),
            c.aud.as_str(),
            c.exp.0,
            c.iat.0,
            c.jti.as_str(),
        );
        string_of(&cs)
    }

    /// Reads a token from its claim text; `None` where `text` is not the claim
    /// text of a well-formed token.
    pub fn from_claim_text(text: &str) -> (r: Option<Token>)
        ensures
            match r {
                Some(t) => renders(t@, text@),
                None => forall|c: ClaimSet| !renders(c, text@),
            },
    {
        match parse_claims(text) {
            Some(f) => {
                let inner = Claims {
                    iss: f.iss,
                    aud: f.aud,
                    exp: NumericDate(f.exp),
                    iat: NumericDate(f.iat),
                    jti: f.jti,
                };
                if f.refresh {
                    Some(Token::Refresh { inner })
                } else {
                    Some(Token::Session { inner })
                }
            },
            None => None,
        }
    }

    /// The token that the verified claim text `text` stands for, where it is
    /// valid for `auth` at `now`.
    pub fn accept(text: &str, auth: &TokenAuthority, now: NumericDate) -> (r: Option<Token>)
        ensures
            match r {
                Some(t) => accepted(text@, auth.issuer(), now.0) == Some(t@),
                None => accepted(text@, auth.issuer(), now.0) is None,
            },
    {
        let t = match Token::from_claim_text(text) {
            Some(t) => t,
            None => return None,
        };
        let c = t.claims();
        let aud = audience_text();
        let valid = c.iss == auth.host && c.aud == aud && c.iat.0 <= now.0 && now.0 < c.exp.0;
        assert(valid == valid_at(t@, auth.issuer(), now.0));
        if valid {
            proof {
                let c2 = choose|c2: ClaimSet| renders(c2, text@) && valid_at(c2, auth.issuer(), now.0);
                lemma_claim_text_injective(c2, t@);
            }
            Some(t)
        } else {
            proof {
                if exists|c2: ClaimSet| renders(c2, text@) && valid_at(c2, auth.issuer(), now.0) {
                    let c2 = choose|c2: ClaimSet|
                        renders(c2, text@) && valid_at(c2, auth.issuer(), now.0);
                    lemma_claim_text_injective(c2, t@);
                }
            }
            None
        }
    }

    /// The text that carries this token: its claim text, signed by `auth`.
    /// It fails only where the signing primitive refuses.
    pub fn encode(&self, auth: &TokenAuthority) -> (r: Result<String, TokenError>)
        ensures
            match r {
                Ok(s) => encoded(self@, auth.signing_key()) == Some(s@),
                Err(e) => e == TokenError::Signing && encoded(self@, auth.signing_key()) is None,
            },
    {
        let text = self.claim_text();
        match sign(&auth.signing, text.as_str()) {
            Ok(s) => Ok(s),
            Err(_) => Err(TokenError::Signing),
        }
    }

    /// The token that `token` carries, where its signature checks under the
    /// key of `auth` and its claims are valid at `now`. Success also needs the
    /// signing library's own expiry check, against its own clock, to pass.
    pub fn decode(token: &str, auth: &TokenAuthority, now: NumericDate) -> (r: Result<Token, TokenError>)
        ensures
            match r {
                Ok(t) => {
                    &&& well_formed(t@)
                    &&& valid_at(t@, auth.issuer(), now.0)
                    &&& (jws_claims(auth.verifying_key(), token@) matches Some(text) && accepted(
                        text,
                        auth.issuer(),
                        now.0,
                    ) == Some(t@))
                },
                Err(e) => e == TokenError::Invalid,
            },
            jws_claims(auth.verifying_key(), token@) is None ==> r is Err,
            (jws_claims(auth.verifying_key(), token@) matches Some(text) && accepted(
                text,
                auth.issuer(),
                now.0,
            ) is None) ==> r is Err,
    {
        let aud = audience_text();
        let text = match verify(token, &auth.verifying, aud.as_str(), auth.host()) {
            Ok(text) => text,
            Err(_) => return Err(TokenError::Invalid),
        };
        match Token::accept(text.as_str(), auth, now) {
            Some(t) => Ok(t),
            None => Err(TokenError::Invalid),
        }
    }
}

/// A well-formed claim set that names `issuer` and the client audience, written
/// as claim text and read back at a time `now` no earlier than its issue, is
/// accepted as the same claims while `now` is before its expiry, and refused
/// from its expiry on.
pub proof fn lemma_claim_text_round_trip(c: ClaimSet, issuer: Seq<char>, now: u64)
    requires
        well_formed(c),
        c.iss == issuer,
        c.aud == audience(),
        c.iat <= now,
    ensures
        accepted(crate::payload::claim_text(c), issuer, now) == (if now < c.exp {
            Some(c)
        } else {
            None::<ClaimSet>
        }),
{
    let text = crate::payload::claim_text(c);
    assert(renders(c, text));
    if exists|c2: ClaimSet| renders(c2, text) && valid_at(c2, issuer, now) {
        let c2 = choose|c2: ClaimSet| renders(c2, text) && valid_at(c2, issuer, now);
        lemma_claim_text_injective(c2, c);
    }
}

} // verus!
