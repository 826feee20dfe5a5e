//! Bearer-token validation against the identity provider's rotating key
//! set, with a key-set cache that stays fresh for an hour after a fetch.
//!
//! Validation runs in steps. `JwtValidator::validate` decides from the
//! token and the cache alone: it either finishes, or asks the caller to
//! fetch the key set, once, after which `validate_with_keys` finishes.
//! Every failure ends as an unauthenticated state, never as an error that
//! a client sees; callers that need authentication test for it with
//! `require_auth`.
use vstd::prelude::*;
use vstd::string::*;
use crate::error::AppError;

verus! {

/// Seconds for which a fetched key set is used before it is fetched again.
pub const JWKS_TTL_SECS: u64 = 3600;

/// The key id in the header of a token; `None` when the header does not
/// parse, `Some(None)` when it names no key.
pub uninterp spec fn header_kid(token: Seq<char>) -> Option<Option<Seq<char>>>;

/// Relies on jsonwebtoken's `decode_header`: it reads the token's header
/// alone, and its `kid` field.
#[verifier::external_body]
fn token_kid(token: &str) -> (r: Option<Option<String>>)
    ensures
        match r {
            None => header_kid(token@) is None,
            Some(None) => header_kid(token@) == Some(None::<Seq<char>>),
            Some(Some(k)) => header_kid(token@) == Some(Some(k@)),
        },
{
    jsonwebtoken::decode_header(token).ok().map(|h| h.kid)
}

/// Relies on jsonwebtoken's `DecodingKey::from_rsa_components` and
/// `decode` under `Validation::new(Algorithm::RS256)` with the audience and
/// issuer set and the `exp`, `iat`, `iss`, `aud` and `sub` claims
/// required: `None` when the key or the token is refused (signature,
/// audience, issuer, expiry, a missing claim), else the token's `email`
/// claim if it is a text. The outcome depends on the time of the call.
#[verifier::external_body]
fn verify_rs256(token: &str, n: &str, e: &str, audience: &str, issuer: &str) -> (r: Option<Option<String>>)
{
    let key = jsonwebtoken::DecodingKey::from_rsa_components(n, e).ok()?;
    let mut validation = jsonwebtoken::Validation::new(jsonwebtoken::Algorithm::RS256);
    validation.set_audience(&[audience]);
    validation.set_issuer(&[issuer]);
    validation.set_required_spec_claims(&["exp", "iat", "iss", "aud", "sub"]);
    let data = jsonwebtoken::decode::<std::collections::HashMap<String, serde_json::Value>>(
        token,
        &key,
        &validation,
    ).ok()?;
    Some(data.claims.get("email").and_then(|v| v.as_str()).map(|s| s.to_string()))
}

/// Who made a request: authenticated or not, with the token's email claim
/// when it carried one.
#[derive(Debug, Clone)]
pub struct AuthState {
    pub is_authenticated: bool,
    pub email: Option<String>,
}

impl Default for AuthState {
    fn default() -> (r: AuthState)
        ensures
            !r.is_authenticated,
            r.email is None,
    {
        AuthState { is_authenticated: false, email: None }
    }
}

impl AuthState {
    /// The state that a validation outcome leaves: every failure counts as
    /// unauthenticated.
    pub fn from_outcome(outcome: Result<AuthState, AuthError>) -> (r: AuthState)
        ensures
            match outcome {
                Ok(s) => r == s,
                Err(_) => !r.is_authenticated && r.email is None,
            },
    {
        match outcome {
            Ok(s) => s,
            Err(_) => AuthState::default(),
        }
    }
}

/// Fails with `Unauthorized` unless the request is authenticated.
pub fn require_auth(auth: &AuthState) -> (r: Result<(), AppError>)
    ensures
        auth.is_authenticated <==> r is Ok,
        r matches Err(e) ==> (e matches AppError::Unauthorized(m) && m@
            == "Authentication required"@),
{
    if !auth.is_authenticated {
        return Err(AppError::Unauthorized(String::from_str("Authentication required")));
    }
    Ok(())
}

/// Why a token was not accepted.
#[derive(Debug, Clone, Copy, PartialEq, Eq, Structural)]
pub enum AuthError {
    /// The header does not parse or names no key.
    InvalidToken,
    /// No key of the key set has the token's key id.
    KeyNotFound,
    /// The key or the token was refused: signature, audience, issuer or expiry.
    Rejected,
}

/// A public key of the key set.
#[derive(Debug, Clone)]
pub struct JwkKey {
    pub kid: String,
    pub kty: String,
    pub n: String,
    pub e: String,
}

/// A fetched key set and when it was fetched, in seconds of a monotonic clock.
#[derive(Debug, Clone)]
pub struct JwksCache {
    pub keys: Vec<JwkKey>,
    pub fetched_at: u64,
}

impl JwksCache {
    pub open spec fn fresh_at(&self, now: u64) -> bool {
        now <= self.fetched_at || now - self.fetched_at < JWKS_TTL_SECS
    }

    /// The cache that a fetch at `now` leaves.
    pub fn refreshed(keys: Vec<JwkKey>, now: u64) -> (r: JwksCache)
        ensures
            r.keys@ == keys@,
            r.fetched_at == now,
            r.fresh_at(now),
    {
        JwksCache { keys, fetched_at: now }
    }

    /// Whether the key set may still be used at `now`: less than an hour
    /// after it was fetched.
    pub fn is_fresh(&self, now: u64) -> (r: bool)
        ensures
            r == self.fresh_at(now),
    {
        now <= self.fetched_at || now - self.fetched_at < JWKS_TTL_SECS
    }
}

pub open spec fn has_kid(keys: Seq<JwkKey>, kid: Seq<char>) -> bool {
    exists|i: int| 0 <= i < keys.len() && (#[trigger] keys[i]).kid@ == kid
}

/// The first key with the given id.
pub fn find_key<'a>(keys: &'a Vec<JwkKey>, kid: &String) -> (r: Option<&'a JwkKey>)
    ensures
        match r {
            Some(k) => k.kid@ == kid@ && exists|i: int|
                0 <= i < keys@.len() && keys@[i] == *k && forall|j: int|
                    0 <= j < i ==> (#[trigger] keys@[j]).kid@ != kid@,
            None => !has_kid(keys@, kid@),
        },
{
    let mut i: usize = 0;
    while i < keys.len()
        invariant
            i <= keys@.len(),
            forall|j: int| 0 <= j < i ==> (#[trigger] keys@[j]).kid@ != kid@,
        decreases keys@.len() - i,
    {
        if keys[i].kid == *kid {
            return Some(&keys[i]);
        }
        i += 1;
    }
    None
}

/// What a validation step leaves to do.
#[derive(Debug)]
pub enum ValidationStep {
    /// Validation is over.
    Done(Result<AuthState, AuthError>),
    /// The key set must be fetched, and the token then checked against it
    /// for this key id.
    FetchKeys(String),
}

/// The validator's configuration: the identity provider's team domain and
/// the audience that tokens must carry. With either one empty, validation
/// is disabled.
#[derive(Debug, Clone)]
pub struct JwtValidator {
    pub team_domain: String,
    pub policy_aud: String,
}

impl JwtValidator {
    pub open spec fn enabled(&self) -> bool {
        self.team_domain@.len() > 0 && self.policy_aud@.len() > 0
    }

    pub fn new(team_domain: String, policy_aud: String) -> (r: JwtValidator)
        ensures
            r.team_domain@ == team_domain@,
            r.policy_aud@ == policy_aud@,
    {
        JwtValidator { team_domain, policy_aud }
    }

    pub fn disabled() -> (r: JwtValidator)
        ensures
            !r.enabled(),
    {
        JwtValidator { team_domain: String::new(), policy_aud: String::new() }
    }

    pub fn is_enabled(&self) -> (r: bool)
        ensures
            r == self.enabled(),
    {
        self.team_domain.as_str().unicode_len() > 0 && self.policy_aud.as_str().unicode_len() > 0
    }

    /// The issuer that tokens must name: `https://` and the team domain.
    pub fn issuer(&self) -> (r: String)
        ensures
            r@ == "https://"@ + self.team_domain@,
    {
        let mut r = String::from_str("https://");
        r.append(self.team_domain.as_str());
        r
    }

    /// Where the key set is published.
    pub fn certs_url(&self) -> (r: String)
        ensures
            r@ == "https://"@ + self.team_domain@ + "/cdn-cgi/access/certs"@,
    {
        let mut r = self.issuer();
        r.append("/cdn-cgi/access/certs");
        r
    }

    /// The first step of validating a token, given the cache as it stands
    /// at `now`. A disabled validator answers unauthenticated at once and
    /// asks for no fetch. A header that does not parse or names no key
    /// fails. With a fresh cache the token is checked against it; with
    /// none, or a stale one, the step asks for one fetch of the key set.
    pub fn validate(&self, token: &str, cache: &Option<JwksCache>, now: u64) -> (r: ValidationStep)
        ensures
            !self.enabled() ==> (r matches ValidationStep::Done(Ok(s)) && !s.is_authenticated
                && s.email is None),
            self.enabled() ==> match header_kid(token@) {
                None => r == ValidationStep::Done(Err(AuthError::InvalidToken)),
                Some(None) => r == ValidationStep::Done(Err(AuthError::InvalidToken)),
                Some(Some(kid)) => match cache {
                    Some(c) => if c.fresh_at(now) {
                        (r matches ValidationStep::Done(outcome) && checked_against(
                            c.keys@,
                            kid,
                            outcome,
                        ))
                    } else {
                        (r matches ValidationStep::FetchKeys(k) && k@ == kid)
                    },
                    None => (r matches ValidationStep::FetchKeys(k) && k@ == kid),
                },
            },
    {
        if !self.is_enabled() {
            return ValidationStep::Done(Ok(AuthState::default()));
        }
        let kid = match token_kid(token) {
            Some(Some(k)) => k,
            _ => {
                return ValidationStep::Done(Err(AuthError::InvalidToken));
            },
        };
        match cache {
            Some(c) => if c.is_fresh(now) {
                ValidationStep::Done(self.validate_with_keys(token, &kid, &c.keys))
            } else {
                ValidationStep::FetchKeys(kid)
            },
            None => ValidationStep::FetchKeys(kid),
        }
    }

    /// Checks a token against a key set for the token's key id: no key of
    /// that id fails with `KeyNotFound`; otherwise the RS256 signature,
    /// audience, issuer and expiry decide between an authenticated state
    /// and `Rejected`.
    pub fn validate_with_keys(&self, token: &str, kid: &String, keys: &Vec<JwkKey>) -> (r: Result<
        AuthState,
        AuthError,
    >)
        ensures
            checked_against(keys@, kid@, r),
    {
        let key = match find_key(keys, kid) {
            Some(k) => k,
            None => {
                return Err(AuthError::KeyNotFound);
            },
        };
        let issuer = self.issuer();
        match verify_rs256(token, key.n.as_str(), key.e.as_str(), self.policy_aud.as_str(), issuer.as_str()) {
            Some(email) => Ok(AuthState { is_authenticated: true, email }),
            None => Err(AuthError::Rejected),
        }
    }
}

/// What checking a token against a key set may end in.
pub open spec fn checked_against(keys: Seq<JwkKey>, kid: Seq<char>, r: Result<AuthState, AuthError>) -> bool {
    if !has_kid(keys, kid) {
        r == Err::<AuthState, AuthError>(AuthError::KeyNotFound)
    } else {
        match r {
            Ok(s) => s.is_authenticated,
            Err(e) => e == AuthError::Rejected,
        }
    }
}

} // verus!
