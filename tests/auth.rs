use auth_core::account::{
    login, register, insert_outcome, validate_email, validate_password, validate_phone,
    validate_registration, validate_username, InsertError, LoginRequest, Model, NewUser,
    RegisterRequest,
};
use auth_core::error::{AuthError, Field, StoreError};
use auth_core::gate::{authenticate, bearer_token, check_credentials, decide_admission};
use auth_core::password::{hash_password, verify_password};
use auth_core::revocation::{revocation_key, revocation_ttl, RevocationStore};
use auth_core::token::{issue, validate, Claims, TokenConfig, TokenError};

fn config() -> TokenConfig {
    TokenConfig { secret: b"server-secret-key".to_vec(), ttl: 3600 }
}

fn account(username: &str, password: &str, email: &str) -> Model {
    Model {
        id: 1,
        username: username.to_string(),
        password: hash_password(password).unwrap(),
        email: email.to_string(),
        phone: "0123456789".to_string(),
        active: true,
        created_at: 0,
        updated_at: 0,
    }
}

fn registration(username: &str, password: &str, email: &str, phone: &str) -> RegisterRequest {
    RegisterRequest {
        username: username.to_string(),
        password: password.to_string(),
        email: email.to_string(),
        phone: phone.to_string(),
    }
}

#[test]
fn hash_then_verify_accepts_same_password() {
    for p in ["P@ssw0rd1", "", "a", "пароль✓ünï", "x".repeat(200).as_str()] {
        let h = hash_password(p).unwrap();
        assert!(h.starts_with("$argon2"));
        assert_ne!(h, p);
        assert_eq!(verify_password(p, &h), Ok(true));
    }
}

#[test]
fn verify_rejects_other_password() {
    let h = hash_password("P@ssw0rd1").unwrap();
    assert_eq!(verify_password("P@ssw0rd2", &h), Ok(false));
    assert_eq!(verify_password("", &h), Ok(false));
    let e = hash_password("").unwrap();
    assert_eq!(verify_password(" ", &e), Ok(false));
}

#[test]
fn hashing_twice_uses_fresh_salts() {
    let a = hash_password("same").unwrap();
    let b = hash_password("same").unwrap();
    assert_ne!(a, b);
}

#[test]
fn corrupted_stored_hash_is_internal_error() {
    assert_eq!(verify_password("x", "not a phc string"), Err(AuthError::InternalError));
}

#[test]
fn issued_token_has_documented_layout() {
    let t = issue("alice", &config(), 1000);
    assert!(t.starts_with("HS256.00000000000003e8.00000000000011f8.alice."));
    assert_eq!(t.len(), 105 + 5);
    let sig = &t[t.len() - 64..];
    assert!(sig.chars().all(|c| c.is_ascii_hexdigit() && !c.is_ascii_uppercase()));
}

#[test]
fn token_valid_until_expiry() {
    let c = config();
    let t = issue("alice", &c, 1000);
    let expect = Claims { sub: "alice".to_string(), iat: 1000, exp: 4600 };
    assert_eq!(validate(&t, &c, 1000), Ok(expect.clone()));
    assert_eq!(validate(&t, &c, 4599), Ok(expect));
    assert_eq!(validate(&t, &c, 4600), Err(TokenError::Expired));
    assert_eq!(validate(&t, &c, u64::MAX), Err(TokenError::Expired));
}

#[test]
fn token_subject_with_dots_and_unicode() {
    let c = config();
    let t = issue("a.b.ç", &c, 5);
    assert_eq!(validate(&t, &c, 6).unwrap().sub, "a.b.ç");
}

#[test]
fn tampered_signature_is_rejected() {
    let c = config();
    let t = issue("bob", &c, 10);
    let chars: Vec<char> = t.chars().collect();
    let n = chars.len();
    for j in n - 64..n {
        for r in ['0', '9', 'a', 'f', 'F', 'z'] {
            if chars[j] == r {
                continue;
            }
            let mut u = chars.clone();
            u[j] = r;
            let s: String = u.into_iter().collect();
            assert_eq!(validate(&s, &c, 11), Err(TokenError::InvalidSignature));
        }
    }
}

#[test]
fn tampered_claims_or_algorithm_are_rejected() {
    let c = config();
    let t = issue("bob", &c, 10);
    let other_alg = t.replacen("HS256", "HS384", 1);
    assert_eq!(validate(&other_alg, &c, 11), Err(TokenError::InvalidSignature));
    let other_sub = t.replacen(".bob.", ".bot.", 1);
    assert_eq!(validate(&other_sub, &c, 11), Err(TokenError::InvalidSignature));
    let later_exp = t.replacen("0000000000000e1a", "0000000000000e1b", 1);
    assert_ne!(later_exp, t);
    assert_eq!(validate(&later_exp, &c, 11), Err(TokenError::InvalidSignature));
    assert_eq!(validate("", &c, 11), Err(TokenError::InvalidSignature));
}

#[test]
fn token_from_other_key_is_rejected() {
    let t = issue("bob", &config(), 10);
    let other = TokenConfig { secret: b"another-key".to_vec(), ttl: 3600 };
    assert_eq!(validate(&t, &other, 11), Err(TokenError::InvalidSignature));
}

#[test]
fn revocation_key_and_ttl() {
    assert_eq!(revocation_key("abc"), "bl:abc");
    assert_eq!(revocation_ttl(100, 40), Some(60));
    assert_eq!(revocation_ttl(100, 100), None);
    assert_eq!(revocation_ttl(100, 150), None);
}

#[test]
fn revoke_marks_token_until_expiry() {
    let c = config();
    let t = issue("bob", &c, 100);
    let mut store = RevocationStore::new();
    assert!(!store.is_revoked(&t, 100));
    store.revoke(&t, &c, 200);
    assert!(store.is_revoked(&t, 200));
    assert!(store.is_revoked(&t, 3699));
    assert!(!store.is_revoked(&t, 3700));
    let other = issue("alice", &c, 100);
    assert!(!store.is_revoked(&other, 200));
}

#[test]
fn revoke_twice_same_as_once() {
    let c = config();
    let t = issue("bob", &c, 100);
    let u = issue("carol", &c, 100);
    let mut once = RevocationStore::new();
    once.revoke(&t, &c, 200);
    let mut twice = RevocationStore::new();
    twice.revoke(&t, &c, 200);
    twice.revoke(&t, &c, 200);
    for now in [150, 200, 3699, 3700] {
        assert_eq!(once.is_revoked(&t, now), twice.is_revoked(&t, now));
        assert_eq!(once.is_revoked(&u, now), twice.is_revoked(&u, now));
    }
}

#[test]
fn revoking_expired_or_forged_token_stores_nothing() {
    let c = config();
    let t = issue("bob", &c, 100);
    let mut store = RevocationStore::new();
    store.revoke(&t, &c, 3700);
    assert!(!store.is_revoked(&t, 150));
    store.revoke("garbage", &c, 150);
    assert!(!store.is_revoked("garbage", 150));
}

#[test]
fn bearer_scheme_parsing() {
    assert_eq!(bearer_token("Bearer abc"), Some("abc".to_string()));
    assert_eq!(bearer_token("Bearer "), Some(String::new()));
    assert_eq!(bearer_token("bearer abc"), None);
    assert_eq!(bearer_token("Basic abc"), None);
    assert_eq!(bearer_token("Bearer"), None);
}

#[test]
fn gate_rejects_missing_or_bad_credentials() {
    let c = config();
    let store = RevocationStore::new();
    assert_eq!(authenticate(None, &c, 10, &store), Err(AuthError::Unauthenticated));
    assert_eq!(authenticate(Some("Basic x"), &c, 10, &store), Err(AuthError::Unauthenticated));
    assert_eq!(authenticate(Some("Bearer nope"), &c, 10, &store), Err(AuthError::Unauthenticated));
    let t = issue("bob", &c, 10);
    let h = format!("Bearer {}", t);
    assert_eq!(authenticate(Some(&h), &c, 3610, &store), Err(AuthError::Unauthenticated));
}

#[test]
fn gate_accepts_valid_token() {
    let c = config();
    let store = RevocationStore::new();
    let t = issue("bob", &c, 10);
    let h = format!("Bearer {}", t);
    assert_eq!(authenticate(Some(&h), &c, 11, &store).unwrap().username, "bob");
}

#[test]
fn revoked_token_rejected() {
    let c = config();
    let t = issue("bob", &c, 10);
    let mut store = RevocationStore::new();
    store.revoke(&t, &c, 20);
    let h = format!("Bearer {}", t);
    assert_eq!(authenticate(Some(&h), &c, 30, &store), Err(AuthError::Unauthenticated));
    assert!(validate(&t, &c, 30).is_ok());
}

#[test]
fn gate_stages_with_external_store() {
    let c = config();
    let t = issue("bob", &c, 10);
    let h = format!("Bearer {}", t);
    let (tok, claims) = check_credentials(Some(&h), &c, 11).unwrap();
    assert_eq!(tok, t);
    assert_eq!(decide_admission(claims.clone(), Err(StoreError)), Err(AuthError::InternalError));
    assert_eq!(decide_admission(claims.clone(), Ok(true)), Err(AuthError::Unauthenticated));
    assert_eq!(decide_admission(claims, Ok(false)).unwrap().username, "bob");
}

#[test]
fn login_success() {
    let c = config();
    let alice = account("alice", "P@ssw0rd1", "alice@x.com");
    let req = LoginRequest { username: "alice".to_string(), password: "P@ssw0rd1".to_string() };
    let t = login(Ok(Some(alice)), &req, &c, 500).unwrap();
    assert_eq!(validate(&t, &c, 501).unwrap().sub, "alice");
}

#[test]
fn login_failure_no_enumeration_leak() {
    let c = config();
    let alice = account("alice", "P@ssw0rd1", "alice@x.com");
    let unknown = LoginRequest { username: "mallory".to_string(), password: "P@ssw0rd1".to_string() };
    let wrong = LoginRequest { username: "alice".to_string(), password: "guess".to_string() };
    let a = login(Ok(None), &unknown, &c, 500);
    let b = login(Ok(Some(alice)), &wrong, &c, 500);
    assert_eq!(a, Err(AuthError::InvalidCredentials));
    assert_eq!(a, b);
}

#[test]
fn login_internal_errors() {
    let c = config();
    let req = LoginRequest { username: "alice".to_string(), password: "P@ssw0rd1".to_string() };
    assert_eq!(login(Err(StoreError), &req, &c, 500), Err(AuthError::InternalError));
    let mut broken = account("alice", "P@ssw0rd1", "alice@x.com");
    broken.password = "corrupted".to_string();
    assert_eq!(login(Ok(Some(broken)), &req, &c, 500), Err(AuthError::InternalError));
}

#[test]
fn login_inactive_account_rejected() {
    let c = config();
    let mut alice = account("alice", "P@ssw0rd1", "alice@x.com");
    alice.active = false;
    let req = LoginRequest { username: "alice".to_string(), password: "P@ssw0rd1".to_string() };
    assert_eq!(login(Ok(Some(alice)), &req, &c, 500), Err(AuthError::InvalidCredentials));
}

#[test]
fn registration_conflict_email() {
    let existing = account("someone", "P@ssw0rd1", "a@x.com");
    let req = registration("newuser", "Str0ngPass", "a@x.com", "0123456789");
    assert_eq!(register(req, Ok(Some(existing))), Err(AuthError::EmailTaken));
}

#[test]
fn registration_conflict_username() {
    let existing = account("newuser", "P@ssw0rd1", "a@x.com");
    let req = registration("newuser", "Str0ngPass", "a@x.com", "0123456789");
    assert_eq!(register(req, Ok(Some(existing))), Err(AuthError::UsernameTaken));
}

#[test]
fn registration_validation_short_password() {
    let req = registration("newuser", "short1", "n@x.com", "0123456789");
    assert_eq!(register(req, Ok(None)), Err(AuthError::ValidationError(vec![Field::Password])));
}

#[test]
fn registration_validation_all_fields() {
    let req = registration("ab", "password", "nope", "12-34");
    assert_eq!(
        validate_registration(&req),
        Err(AuthError::ValidationError(vec![Field::Username, Field::Password, Field::Email, Field::Phone]))
    );
}

#[test]
fn registration_store_failure() {
    let req = registration("newuser", "Str0ngPass", "n@x.com", "0123456789");
    assert_eq!(register(req, Err(StoreError)), Err(AuthError::InternalError));
}

#[test]
fn registration_success_hashes_password() {
    let req = registration("newuser", "Str0ngPass", "n@x.com", "0123456789");
    let u: NewUser = register(req, Ok(None)).unwrap();
    assert_eq!(u.username, "newuser");
    assert_eq!(u.email, "n@x.com");
    assert_eq!(u.phone, "0123456789");
    assert!(u.active);
    assert_ne!(u.password, "Str0ngPass");
    assert_eq!(verify_password("Str0ngPass", &u.password), Ok(true));
}

#[test]
fn field_rules() {
    assert!(validate_username("abc"));
    assert!(validate_username(&"u".repeat(30)));
    assert!(!validate_username("ab"));
    assert!(!validate_username(&"u".repeat(31)));
    assert!(validate_password("Passw0rd"));
    assert!(!validate_password("Pass0rd"));
    assert!(!validate_password("password1"));
    assert!(!validate_password("PASSWORD1"));
    assert!(!validate_password("Password"));
    assert!(validate_phone("0123456789"));
    assert!(validate_phone("012345678901234"));
    assert!(!validate_phone("012345678"));
    assert!(!validate_phone("0123456789012345"));
    assert!(!validate_phone("01234-56789"));
    assert!(validate_email("a@x.com"));
    assert!(!validate_email("not-an-email"));
    assert!(!validate_email(""));
}

#[test]
fn insert_outcomes() {
    assert_eq!(insert_outcome(Ok(7)), Ok(7));
    assert_eq!(insert_outcome(Err(InsertError::UsernameConflict)), Err(AuthError::UsernameTaken));
    assert_eq!(insert_outcome(Err(InsertError::EmailConflict)), Err(AuthError::EmailTaken));
    assert_eq!(insert_outcome(Err(InsertError::Other)), Err(AuthError::InternalError));
}

#[test]
fn before_save_stamps() {
    let mut m = account("alice", "P@ssw0rd1", "alice@x.com");
    m.active = false;
    m.before_save(true, 50);
    assert_eq!((m.created_at, m.updated_at, m.active), (50, 50, true));
    m.active = false;
    m.before_save(false, 80);
    assert_eq!((m.created_at, m.updated_at, m.active), (50, 80, false));
}

#[test]
fn purge_drops_only_lapsed_entries() {
    let c = config();
    let short = TokenConfig { secret: c.secret.clone(), ttl: 50 };
    let t = issue("bob", &c, 100);
    let u = issue("carol", &short, 100);
    let mut store = RevocationStore::new();
    store.revoke(&t, &c, 120);
    store.revoke(&u, &short, 120);
    store.purge_expired(140);
    assert!(store.is_revoked(&t, 140));
    assert!(store.is_revoked(&u, 140));
    store.purge_expired(150);
    assert!(store.is_revoked(&t, 150));
    assert!(!store.is_revoked(&u, 149));
}

#[test]
fn login_rejects_expiry_past_clock_range() {
    let c = TokenConfig { secret: b"k".to_vec(), ttl: 10 };
    let alice = account("alice", "P@ssw0rd1", "alice@x.com");
    let req = LoginRequest { username: "alice".to_string(), password: "P@ssw0rd1".to_string() };
    assert_eq!(login(Ok(Some(alice)), &req, &c, u64::MAX - 5), Err(AuthError::InternalError));
}
