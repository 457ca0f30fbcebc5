use vstd::prelude::*;
use vstd::string::*;
use hmac::{Hmac, Mac};
use sha2::Sha256;
use crate::hex::{
    hex_bytes, hex_field, lemma_hex_bytes_all_hex, lemma_hex_bytes_injective, push_char, chars_of,
    push_hex_u64, push_hex_bytes, parse_hex_u64, parse_hex_bytes,
};

verus! {

/// Process-wide signing configuration: the secret key and the token lifetime in seconds.
pub struct TokenConfig {
    pub secret: Vec<u8>,
    pub ttl: u64,
}

/// The claims a token carries: subject, issue time and expiry time, in seconds.
#[derive(Clone, Debug, PartialEq, Eq)]
pub struct Claims {
    pub sub: String,
    pub iat: u64,
    pub exp: u64,
}

pub struct ClaimsView {
    pub sub: Seq<char>,
    pub iat: u64,
    pub exp: u64,
}

impl View for Claims {
    type V = ClaimsView;

    open spec fn view(&self) -> ClaimsView {
        ClaimsView { sub: self.sub@, iat: self.iat, exp: self.exp }
    }
}

#[derive(Clone, Copy, Debug, PartialEq, Eq, Structural)]
pub enum TokenError {
    /// Malformed text, a foreign algorithm tag, or a tag that does not match.
    InvalidSignature,
    /// Authentic, but the current time is at or past its expiry.
    Expired,
}

/// The HMAC-SHA256 tag of a message under a key.
pub uninterp spec fn hmac_sha256_of(key: Seq<u8>, msg: Seq<char>) -> Seq<u8>;

/// Relies on `Hmac::<Sha256>` (`new_from_slice` accepts keys of any length, then
/// `update` and `finalize`): the tag of the message bytes, 32 bytes long.
#[verifier::external_body]
fn hmac_sign(key: &Vec<u8>, msg: &str) -> (r: Vec<u8>)
    ensures
        r@ == hmac_sha256_of(key@, msg@),
        r@.len() == 32,
{
    match Hmac::<Sha256>::new_from_slice(key) {
        Ok(mut mac) => {
            mac.update(msg.as_bytes());
            mac.finalize().into_bytes().to_vec()
        },
        Err(_) => Vec::new(),
    }
}

/// Relies on `Mac::verify_slice` of `Hmac::<Sha256>`: true exactly when `tag` equals
/// the tag of the message, compared in constant time.
#[verifier::external_body]
fn hmac_check(key: &Vec<u8>, msg: &str, tag: &Vec<u8>) -> (r: bool)
    ensures
        r == (tag@ == hmac_sha256_of(key@, msg@)),
{
    match Hmac::<Sha256>::new_from_slice(key) {
        Ok(mut mac) => {
            mac.update(msg.as_bytes());
            mac.verify_slice(tag).is_ok()
        },
        Err(_) => false,
    }
}

/// The algorithm tag that opens every token.
pub open spec fn token_header() -> Seq<char> {
    seq!['H', 'S', '2', '5', '6', '.']
}

/// Length of a token whose subject has `n` characters.
pub open spec fn token_len(n: nat) -> nat {
    n + 105
}

/// Where the signature segment of a token of length `len` starts.
pub open spec fn sig_start(len: nat) -> int {
    len - 64
}

/// `t` is a token signed with `key` that carries `c`:
/// `HS256.<iat: 16 hex>.<exp: 16 hex>.<subject>.<tag: 64 hex>`, the tag taken over
/// everything before the last dot.
pub open spec fn is_token(t: Seq<char>, key: Seq<u8>, c: ClaimsView) -> bool {
    let n = c.sub.len() as int;
    &&& t.len() == token_len(c.sub.len())
    &&& t.subrange(0, 6) == token_header()
    &&& hex_field(t.subrange(6, 22), c.iat)
    &&& t[22] == '.'
    &&& hex_field(t.subrange(23, 39), c.exp)
    &&& t[39] == '.'
    &&& t.subrange(40, 40 + n) == c.sub
    &&& t[40 + n] == '.'
    &&& t.subrange(41 + n, 105 + n) == hex_bytes(hmac_sha256_of(key, t.subrange(0, 40 + n)))
}

/// What validating `t` at time `now` yields.
pub open spec fn validation(t: Seq<char>, key: Seq<u8>, now: u64) -> Result<ClaimsView, TokenError> {
    if exists|c: ClaimsView| is_token(t, key, c) {
        let c = choose|c: ClaimsView| is_token(t, key, c);
        if now < c.exp {
            Ok(c)
        } else {
            Err(TokenError::Expired)
        }
    } else {
        Err(TokenError::InvalidSignature)
    }
}

pub open spec fn claims_result_view(r: Result<Claims, TokenError>) -> Result<ClaimsView, TokenError> {
    match r {
        Ok(c) => Ok(c@),
        Err(e) => Err(e),
    }
}

/// The claims of a token issued for `sub` at `now` under lifetime `ttl`.
pub open spec fn issued_claims(sub: Seq<char>, now: u64, ttl: u64) -> ClaimsView {
    ClaimsView { sub, iat: now, exp: (now + ttl) as u64 }
}

/// A text carries at most one claim set.
pub proof fn lemma_token_claims_unique(t: Seq<char>, key: Seq<u8>, c1: ClaimsView, c2: ClaimsView)
    requires
        is_token(t, key, c1),
        is_token(t, key, c2),
    ensures
        c1 == c2,
{
    assert(c1.sub.len() == c2.sub.len());
    assert(c1.sub == c2.sub);
}

/// Mints a token for `sub` that is valid from `now` for the configured lifetime.
pub fn issue(sub: &str, config: &TokenConfig, now: u64) -> (r: String)
    requires
        now + config.ttl <= u64::MAX,
    ensures
        is_token(r@, config.secret@, issued_claims(sub@, now, config.ttl)),
{
    let exp: u64 = now + config.ttl;
    let mut s = String::new();
    push_char(&mut s, 'H');
    push_char(&mut s, 'S');
    push_char(&mut s, '2');
    push_char(&mut s, '5');
    push_char(&mut s, '6');
    push_char(&mut s, '.');
    let ghost s0 = s@;
    push_hex_u64(&mut s, now);
    let ghost s1 = s@;
    push_char(&mut s, '.');
    let ghost s1d = s@;
    push_hex_u64(&mut s, exp);
    let ghost s2 = s@;
    push_char(&mut s, '.');
    let ghost s2d = s@;
    s.append(sub);
    let ghost input = s@;
    let tag = hmac_sign(&config.secret, s.as_str());
    push_char(&mut s, '.');
    let ghost s3 = s@;
    push_hex_bytes(&mut s, &tag);
    proof {
        let t = s@;
        let n = sub@.len() as int;
        assert(s0 =~= token_header());
        assert(s1.subrange(0, 6) == s0);
        assert(s2.subrange(0, 23) == s1d);
        assert(s1d.subrange(0, 22) =~= s1);
        assert(t.subrange(0, 40 + n) =~= input);
        assert(input.subrange(0, 39) =~= s2);
        assert(s2.subrange(0, 6) =~= s1.subrange(0, 6));
        assert(t.subrange(0, 6) =~= s0);
        assert(s2.subrange(6, 22) =~= s1.subrange(6, 22));
        assert(t.subrange(6, 22) =~= s1.subrange(6, 22));
        assert(t.subrange(23, 39) =~= s2.subrange(23, 39));
        assert(s1d[22] == '.');
        assert(s2[22] == s1d[22]);
        assert(t[22] == s2[22]);
        assert(s2d[39] == '.');
        assert(input[39] == s2d[39]);
        assert(t[39] == input[39]);
        assert(t.subrange(40, 40 + n) =~= sub@);
        assert(t.subrange(0, 40 + n) =~= input);
        assert(t.subrange(41 + n, 105 + n) =~= hex_bytes(tag@));
    }
    s
}

/// Checks a token's algorithm tag, signature and expiry at time `now`.
pub fn validate(token: &str, config: &TokenConfig, now: u64) -> (r: Result<Claims, TokenError>)
    ensures
        claims_result_view(r) == validation(token@, config.secret@, now),
{
    let ghost t = token@;
    let ghost key = config.secret@;
    let cs = chars_of(token);
    let len = cs.len();
    if len < 105 {
        proof { assert forall|c: ClaimsView| !is_token(t, key, c) by {} }
        return Err(TokenError::InvalidSignature);
    }
    let n: usize = len - 105;
    if !(cs[0] == 'H' && cs[1] == 'S' && cs[2] == '2' && cs[3] == '5' && cs[4] == '6' && cs[5] == '.'
        && cs[22] == '.' && cs[39] == '.' && cs[40 + n] == '.') {
        proof {
            assert forall|c: ClaimsView| !is_token(t, key, c) by {
                if is_token(t, key, c) {
                    assert(t.subrange(0, 6)[0] == token_header()[0]);
                    assert(t.subrange(0, 6)[1] == token_header()[1]);
                    assert(t.subrange(0, 6)[2] == token_header()[2]);
                    assert(t.subrange(0, 6)[3] == token_header()[3]);
                    assert(t.subrange(0, 6)[4] == token_header()[4]);
                    assert(t.subrange(0, 6)[5] == token_header()[5]);
                }
            }
        }
        return Err(TokenError::InvalidSignature);
    }
    let iat = parse_hex_u64(&cs, 6);
    let exp = parse_hex_u64(&cs, 23);
    let tag = parse_hex_bytes(&cs, 41 + n, 32);
    if iat.is_none() || exp.is_none() || tag.is_none() {
        proof {
            lemma_hex_bytes_all_hex(hmac_sha256_of(key, t.subrange(0, 40 + n)));
            assert forall|c: ClaimsView| !is_token(t, key, c) by {}
        }
        return Err(TokenError::InvalidSignature);
    }
    let iat = iat.unwrap();
    let exp = exp.unwrap();
    let tag = tag.unwrap();
    let input = token.substring_char(0, 40 + n);
    if !hmac_check(&config.secret, input, &tag) {
        proof {
            assert forall|c: ClaimsView| !is_token(t, key, c) by {
                if is_token(t, key, c) {
                    lemma_hex_bytes_injective(tag@, hmac_sha256_of(key, t.subrange(0, 40 + n as int)));
                }
            }
        }
        return Err(TokenError::InvalidSignature);
    }
    let sub = String::from_str(token.substring_char(40, 40 + n));
    let claims = Claims { sub, iat, exp };
    proof {
        assert(t.subrange(0, 6) =~= token_header());
        assert(is_token(t, key, claims@));
        let c = choose|c: ClaimsView| is_token(t, key, c);
        lemma_token_claims_unique(t, key, c, claims@);
    }
    if now < exp {
        Ok(claims)
    } else {
        Err(TokenError::Expired)
    }
}

/// An issued token validates, with the claims it was issued with, exactly while the
/// current time is before issue time plus lifetime; from then on it is expired.
pub proof fn law_issued_token_lifetime(t: Seq<char>, key: Seq<u8>, sub: Seq<char>, now: u64, ttl: u64, later: u64)
    requires
        now + ttl <= u64::MAX,
        is_token(t, key, issued_claims(sub, now, ttl)),
    ensures
        later < now + ttl ==> validation(t, key, later) == Ok::<ClaimsView, TokenError>(issued_claims(sub, now, ttl)),
        later >= now + ttl ==> validation(t, key, later) == Err::<ClaimsView, TokenError>(TokenError::Expired),
{
    let c = choose|c: ClaimsView| is_token(t, key, c);
    lemma_token_claims_unique(t, key, c, issued_claims(sub, now, ttl));
}

/// Changing one character of a token's signature segment makes it fail validation
/// with an invalid signature, at any time.
pub proof fn law_tampered_signature_rejected(
    t: Seq<char>,
    key: Seq<u8>,
    c: ClaimsView,
    j: int,
    ch: char,
    now: u64,
)
    requires
        is_token(t, key, c),
        sig_start(t.len()) <= j < t.len(),
        ch != t[j],
    ensures
        validation(t.update(j, ch), key, now) == Err::<ClaimsView, TokenError>(TokenError::InvalidSignature),
{
    let u = t.update(j, ch);
    let n = c.sub.len() as int;
    assert forall|d: ClaimsView| !is_token(u, key, d) by {
        if is_token(u, key, d) {
            assert(d.sub.len() == c.sub.len());
            assert(u.subrange(0, 40 + n) =~= t.subrange(0, 40 + n));
            assert(u.subrange(41 + n, 105 + n)[j - 41 - n] == u[j]);
            assert(t.subrange(41 + n, 105 + n)[j - 41 - n] == t[j]);
        }
    }
}

} // verus!
