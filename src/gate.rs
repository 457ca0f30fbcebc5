use vstd::prelude::*;
use vstd::string::*;
use crate::error::{AuthError, StoreError};
use crate::hex::chars_of;
use crate::revocation::{revoked_in, revoked_state, RevocationStore};
use crate::token::{validate, validation, Claims, ClaimsView, TokenConfig};

verus! {

/// The identity that an accepted request acts as.
#[derive(Clone, Debug, PartialEq, Eq)]
pub struct AuthenticatedUser {
    pub username: String,
}

pub open spec fn bearer_prefix() -> Seq<char> {
    seq!['B', 'e', 'a', 'r', 'e', 'r', ' ']
}

/// The token of an `Authorization` header value in the bearer scheme.
pub open spec fn bearer_of(h: Seq<char>) -> Option<Seq<char>> {
    if h.len() >= 7 && h.subrange(0, 7) == bearer_prefix() {
        Some(h.subrange(7, h.len() as int))
    } else {
        None
    }
}

pub open spec fn opt_str_view(h: Option<&str>) -> Option<Seq<char>> {
    match h {
        Some(s) => Some(s@),
        None => None,
    }
}

/// First step of the request guard: a bearer token that validates, with its claims.
pub open spec fn credentials_check(header: Option<Seq<char>>, key: Seq<u8>, now: u64) -> Result<(Seq<char>, ClaimsView), AuthError> {
    match header {
        None => Err(AuthError::Unauthenticated),
        Some(h) => match bearer_of(h) {
            None => Err(AuthError::Unauthenticated),
            Some(t) => match validation(t, key, now) {
                Ok(c) => Ok((t, c)),
                Err(_) => Err(AuthError::Unauthenticated),
            },
        },
    }
}

/// Second step of the request guard, on the answer of the revocation lookup; a failed
/// lookup rejects the request.
pub open spec fn admission(c: ClaimsView, revoked: Result<bool, StoreError>) -> Result<Seq<char>, AuthError> {
    match revoked {
        Err(_) => Err(AuthError::InternalError),
        Ok(true) => Err(AuthError::Unauthenticated),
        Ok(false) => Ok(c.sub),
    }
}

/// The whole request guard against an in-process revocation store.
pub open spec fn gate(header: Option<Seq<char>>, key: Seq<u8>, now: u64, m: Map<Seq<char>, u64>) -> Result<Seq<char>, AuthError> {
    match credentials_check(header, key, now) {
        Err(e) => Err(e),
        Ok((t, c)) => admission(c, Ok(revoked_in(m, t, now))),
    }
}

pub open spec fn user_result_view(r: Result<AuthenticatedUser, AuthError>) -> Result<Seq<char>, AuthError> {
    match r {
        Ok(u) => Ok(u.username@),
        Err(e) => Err(e),
    }
}

/// Extracts the token of a bearer-scheme header value.
pub fn bearer_token(header: &str) -> (r: Option<String>)
    ensures
        r is Some <==> bearer_of(header@) is Some,
        r matches Some(t) ==> bearer_of(header@) == Some(t@),
{
    let cs = chars_of(header);
    let len = cs.len();
    if len >= 7 && cs[0] == 'B' && cs[1] == 'e' && cs[2] == 'a' && cs[3] == 'r' && cs[4] == 'e'
        && cs[5] == 'r' && cs[6] == ' ' {
        proof { assert(header@.subrange(0, 7) =~= bearer_prefix()); }
        Some(String::from_str(header.substring_char(7, len)))
    } else {
        proof {
            if len >= 7 && header@.subrange(0, 7) == bearer_prefix() {
                assert(header@.subrange(0, 7)[0] == bearer_prefix()[0]);
                assert(header@.subrange(0, 7)[1] == bearer_prefix()[1]);
                assert(header@.subrange(0, 7)[2] == bearer_prefix()[2]);
                assert(header@.subrange(0, 7)[3] == bearer_prefix()[3]);
                assert(header@.subrange(0, 7)[4] == bearer_prefix()[4]);
                assert(header@.subrange(0, 7)[5] == bearer_prefix()[5]);
                assert(header@.subrange(0, 7)[6] == bearer_prefix()[6]);
            }
        }
        None
    }
}

/// First step of the request guard: the header must carry a bearer token that validates at `now`.
pub fn check_credentials(header: Option<&str>, config: &TokenConfig, now: u64) -> (r: Result<(String, Claims), AuthError>)
    ensures
        match r {
            Ok((t, c)) => credentials_check(opt_str_view(header), config.secret@, now) == Ok::<(Seq<char>, ClaimsView), AuthError>((t@, c@)),
            Err(e) => credentials_check(opt_str_view(header), config.secret@, now) == Err::<(Seq<char>, ClaimsView), AuthError>(e),
        },
{
    let h = match header {
        None => { return Err(AuthError::Unauthenticated); },
        Some(h) => h,
    };
    let t = match bearer_token(h) {
        None => { return Err(AuthError::Unauthenticated); },
        Some(t) => t,
    };
    match validate(t.as_str(), config, now) {
        Ok(c) => Ok((t, c)),
        Err(_) => Err(AuthError::Unauthenticated),
    }
}

/// Second step of the request guard, given the answer of the revocation lookup.
pub fn decide_admission(claims: Claims, revoked: Result<bool, StoreError>) -> (r: Result<AuthenticatedUser, AuthError>)
    ensures
        user_result_view(r) == admission(claims@, revoked),
{
    match revoked {
        Err(_) => Err(AuthError::InternalError),
        Ok(true) => Err(AuthError::Unauthenticated),
        Ok(false) => Ok(AuthenticatedUser { username: claims.sub }),
    }
}

/// The request guard against an in-process revocation store.
pub fn authenticate(header: Option<&str>, config: &TokenConfig, now: u64, store: &RevocationStore) -> (r: Result<AuthenticatedUser, AuthError>)
    requires
        store.wf(),
    ensures
        user_result_view(r) == gate(opt_str_view(header), config.secret@, now, store.view()),
{
    match check_credentials(header, config, now) {
        Err(e) => Err(e),
        Ok((t, c)) => {
            let revoked = store.is_revoked(t.as_str(), now);
            decide_admission(c, Ok(revoked))
        },
    }
}

/// A token revoked at `at` is turned away by the request guard at every later time, while
/// validation alone still accepts it until it expires.
pub proof fn law_revoked_token_rejected(m: Map<Seq<char>, u64>, t: Seq<char>, key: Seq<u8>, at: u64, later: u64)
    requires
        at <= later,
        validation(t, key, at) is Ok,
    ensures
        gate(Some(bearer_prefix() + t), key, later, revoked_state(m, t, key, at))
            == Err::<Seq<char>, AuthError>(AuthError::Unauthenticated),
        later < validation(t, key, at)->Ok_0.exp ==> validation(t, key, later) is Ok,
{
    let h = bearer_prefix() + t;
    assert(h.subrange(0, 7) =~= bearer_prefix());
    assert(h.subrange(7, h.len() as int) =~= t);
}

} // verus!
