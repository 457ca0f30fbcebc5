use vstd::prelude::*;
use validator::ValidateEmail;
use crate::error::{AuthError, Field, StoreError};
use crate::password::{hash_password, is_hash_of, verification, verify_password};
use crate::token::{is_token, issue, issued_claims, TokenConfig};

verus! {

/// A stored user account. Timestamps are seconds since the Unix epoch.
#[derive(Clone, Debug, PartialEq, Eq)]
pub struct Model {
    pub id: i32,
    pub username: String,
    /// PHC string of the password hash; never sent outward.
    pub password: String,
    pub email: String,
    pub phone: String,
    pub active: bool,
    pub created_at: i64,
    pub updated_at: i64,
}

#[derive(Clone, Debug, PartialEq, Eq)]
pub struct LoginRequest {
    pub username: String,
    pub password: String,
}

#[derive(Clone, Debug, PartialEq, Eq)]
pub struct RegisterRequest {
    pub username: String,
    pub password: String,
    pub email: String,
    pub phone: String,
}

/// An account ready to be inserted: the password is already hashed.
#[derive(Clone, Debug, PartialEq, Eq)]
pub struct NewUser {
    pub username: String,
    pub password: String,
    pub email: String,
    pub phone: String,
    pub active: bool,
}

/// A failed insert, by the uniqueness constraint it violated.
#[derive(Clone, Copy, Debug, PartialEq, Eq, Structural)]
pub enum InsertError {
    UsernameConflict,
    EmailConflict,
    Other,
}

/// Whether a text is an e-mail address by the HTML5 rules.
pub uninterp spec fn email_valid(s: Seq<char>) -> bool;

/// Relies on `validator::ValidateEmail::validate_email` for `&str`: whether the text
/// is an e-mail address; a text without `@` never is.
#[verifier::external_body]
fn email_check(s: &str) -> (r: bool)
    ensures
        r == email_valid(s@),
        !s@.contains('@') ==> !r,
{
    s.validate_email()
}

pub open spec fn is_ascii_upper(c: char) -> bool {
    'A' <= c <= 'Z'
}

pub open spec fn is_ascii_lower(c: char) -> bool {
    'a' <= c <= 'z'
}

pub open spec fn is_ascii_digit(c: char) -> bool {
    '0' <= c <= '9'
}

pub open spec fn username_ok(u: Seq<char>) -> bool {
    3 <= u.len() <= 30
}

/// At least eight characters, with an upper-case letter, a lower-case letter and a digit.
pub open spec fn password_ok(p: Seq<char>) -> bool {
    &&& p.len() >= 8
    &&& exists|i: int| 0 <= i < p.len() && is_ascii_upper(#[trigger] p[i])
    &&& exists|i: int| 0 <= i < p.len() && is_ascii_lower(#[trigger] p[i])
    &&& exists|i: int| 0 <= i < p.len() && is_ascii_digit(#[trigger] p[i])
}

/// Ten to fifteen characters, digits only.
pub open spec fn phone_ok(p: Seq<char>) -> bool {
    &&& 10 <= p.len() <= 15
    &&& forall|i: int| 0 <= i < p.len() ==> is_ascii_digit(#[trigger] p[i])
}

/// The fields of a registration request that fail validation, in field order.
pub open spec fn field_errors(r: RegisterRequest) -> Seq<Field> {
    let s0 = if username_ok(r.username@) { Seq::<Field>::empty() } else { seq![Field::Username] };
    let s1 = if password_ok(r.password@) { s0 } else { s0.push(Field::Password) };
    let s2 = if email_valid(r.email@) { s1 } else { s1.push(Field::Email) };
    if phone_ok(r.phone@) { s2 } else { s2.push(Field::Phone) }
}

fn char_count(s: &str) -> (r: usize)
    ensures
        r == s@.len(),
{
    s.unicode_len()
}

pub fn validate_username(u: &str) -> (r: bool)
    ensures
        r == username_ok(u@),
{
    let n = char_count(u);
    3 <= n && n <= 30
}

pub fn validate_password(p: &str) -> (r: bool)
    ensures
        r == password_ok(p@),
{
    let cs = crate::hex::chars_of(p);
    let mut upper = false;
    let mut lower = false;
    let mut digit = false;
    let mut i: usize = 0;
    while i < cs.len()
        invariant
            i <= cs@.len(),
            cs@ == p@,
            upper == exists|j: int| 0 <= j < i && is_ascii_upper(#[trigger] p@[j]),
            lower == exists|j: int| 0 <= j < i && is_ascii_lower(#[trigger] p@[j]),
            digit == exists|j: int| 0 <= j < i && is_ascii_digit(#[trigger] p@[j]),
        decreases cs@.len() - i,
    {
        let c = cs[i];
        if 'A' <= c && c <= 'Z' {
            upper = true;
        }
        if 'a' <= c && c <= 'z' {
            lower = true;
        }
        if '0' <= c && c <= '9' {
            digit = true;
        }
        i = i + 1;
    }
    upper && lower && digit && cs.len() >= 8
}

pub fn validate_phone(p: &str) -> (r: bool)
    ensures
        r == phone_ok(p@),
{
    let cs = crate::hex::chars_of(p);
    let n = cs.len();
    if n < 10 || n > 15 {
        return false;
    }
    let mut i: usize = 0;
    while i < n
        invariant
            i <= n,
            n == cs@.len(),
            cs@ == p@,
            forall|j: int| 0 <= j < i ==> is_ascii_digit(#[trigger] p@[j]),
        decreases n - i,
    {
        let c = cs[i];
        if !('0' <= c && c <= '9') {
            return false;
        }
        i = i + 1;
    }
    true
}

pub fn validate_email(e: &str) -> (r: bool)
    ensures
        r == email_valid(e@),
        !e@.contains('@') ==> !r,
{
    email_check(e)
}

/// Checks the shape of a registration request; the error names every failing field.
pub fn validate_registration(req: &RegisterRequest) -> (r: Result<(), AuthError>)
    ensures
        r is Ok <==> field_errors(*req).len() == 0,
        r is Err ==> (r matches Err(AuthError::ValidationError(v)) && v@ == field_errors(*req)),
{
    let mut errs: Vec<Field> = Vec::new();
    if !validate_username(req.username.as_str()) {
        errs.push(Field::Username);
    }
    if !validate_password(req.password.as_str()) {
        errs.push(Field::Password);
    }
    if !validate_email(req.email.as_str()) {
        errs.push(Field::Email);
    }
    if !validate_phone(req.phone.as_str()) {
        errs.push(Field::Phone);
    }
    proof { assert(errs@ =~= field_errors(*req)); }
    if errs.len() == 0 {
        Ok(())
    } else {
        Err(AuthError::ValidationError(errs))
    }
}

/// What a login answers, given the store's lookup by username among active accounts:
/// the subject of the token to issue, or the rejection.
pub open spec fn login_result(found: Result<Option<Model>, StoreError>, req: LoginRequest) -> Result<Seq<char>, AuthError> {
    match found {
        Err(_) => Err(AuthError::InternalError),
        Ok(None) => Err(AuthError::InvalidCredentials),
        Ok(Some(u)) => if !u.active || u.username@ != req.username@ {
            Err(AuthError::InvalidCredentials)
        } else {
            match verification(req.password@, u.password@) {
                Err(e) => Err(e),
                Ok(false) => Err(AuthError::InvalidCredentials),
                Ok(true) => Ok(u.username@),
            }
        },
    }
}

/// Logs in against the store's answer to the lookup of `req.username` among active
/// accounts; on success returns a token for that user issued at `now`.
pub fn login(found: Result<Option<Model>, StoreError>, req: &LoginRequest, config: &TokenConfig, now: u64) -> (r: Result<String, AuthError>)
    ensures
        now + config.ttl > u64::MAX ==> r == Err::<String, AuthError>(AuthError::InternalError),
        now + config.ttl <= u64::MAX ==> (r is Ok <==> login_result(found, *req) is Ok),
        now + config.ttl <= u64::MAX ==> (r matches Err(e) ==> login_result(found, *req) == Err::<Seq<char>, AuthError>(e)),
        r matches Ok(t) ==> is_token(t@, config.secret@, issued_claims(login_result(found, *req)->Ok_0, now, config.ttl)),
{
    if now > u64::MAX - config.ttl {
        return Err(AuthError::InternalError);
    }
    let u = match found {
        Err(_) => { return Err(AuthError::InternalError); },
        Ok(None) => { return Err(AuthError::InvalidCredentials); },
        Ok(Some(u)) => u,
    };
    if !u.active || !(u.username == req.username) {
        return Err(AuthError::InvalidCredentials);
    }
    match verify_password(req.password.as_str(), u.password.as_str()) {
        Err(e) => Err(e),
        Ok(false) => Err(AuthError::InvalidCredentials),
        Ok(true) => Ok(issue(u.username.as_str(), config, now)),
    }
}

/// An active account whose stored hash accepts the password logs in as itself.
pub proof fn law_login_accepts_own_hash(u: Model, req: LoginRequest)
    requires
        u.active,
        u.username@ == req.username@,
        is_hash_of(req.password@, u.password@),
    ensures
        login_result(Ok(Some(u)), req) == Ok::<Seq<char>, AuthError>(u.username@),
{
}

/// Unknown usernames and wrong passwords get the same answer.
pub proof fn law_login_rejections_indistinguishable(u: Model, unknown: LoginRequest, wrong: LoginRequest)
    requires
        u.active,
        u.username@ == wrong.username@,
        verification(wrong.password@, u.password@) == Ok::<bool, AuthError>(false),
    ensures
        login_result(Ok(None), unknown) == login_result(Ok(Some(u)), wrong),
        login_result(Ok(None), unknown) == Err::<Seq<char>, AuthError>(AuthError::InvalidCredentials),
{
}

/// The conflict, if any, between a request and the account that the store found by
/// username or e-mail.
pub open spec fn conflict(existing: Model, req: RegisterRequest) -> Option<AuthError> {
    if existing.username@ == req.username@ {
        Some(AuthError::UsernameTaken)
    } else if existing.email@ == req.email@ {
        Some(AuthError::EmailTaken)
    } else {
        None
    }
}

/// What the uniqueness stage decides, given the store's lookup of an account with the
/// same username or e-mail.
pub open spec fn uniqueness(req: RegisterRequest, existing: Result<Option<Model>, StoreError>) -> Result<(), AuthError> {
    match existing {
        Err(_) => Err(AuthError::InternalError),
        Ok(None) => Ok(()),
        Ok(Some(m)) => match conflict(m, req) {
            Some(e) => Err(e),
            None => Ok(()),
        },
    }
}

impl NewUser {
    /// The account to insert for a request, with the password replaced by its hash.
    pub fn from_registration(req: RegisterRequest, password_hash: String) -> (r: NewUser)
        ensures
            r.username@ == req.username@,
            r.password@ == password_hash@,
            r.email@ == req.email@,
            r.phone@ == req.phone@,
            r.active,
    {
        NewUser { username: req.username, password: password_hash, email: req.email, phone: req.phone, active: true }
    }
}

/// Registers against the store's answer to the lookup of an account with the same
/// username or e-mail: validates, rejects conflicts, then hashes the password.
pub fn register(req: RegisterRequest, existing: Result<Option<Model>, StoreError>) -> (r: Result<NewUser, AuthError>)
    ensures
        field_errors(req).len() != 0 ==> (r matches Err(AuthError::ValidationError(v)) && v@ == field_errors(req)),
        field_errors(req).len() == 0 && uniqueness(req, existing) is Err ==> (r matches Err(e) && uniqueness(req, existing) == Err::<(), AuthError>(e)),
        field_errors(req).len() == 0 && uniqueness(req, existing) is Ok ==> match r {
            Ok(u) => u.username@ == req.username@ && u.email@ == req.email@ && u.phone@ == req.phone@
                && u.active && is_hash_of(req.password@, u.password@),
            Err(e) => e == AuthError::InternalError,
        },
{
    match validate_registration(&req) {
        Err(e) => { return Err(e); },
        Ok(()) => {},
    }
    match existing {
        Err(_) => { return Err(AuthError::InternalError); },
        Ok(None) => {},
        Ok(Some(m)) => {
            if m.username == req.username {
                return Err(AuthError::UsernameTaken);
            }
            if m.email == req.email {
                return Err(AuthError::EmailTaken);
            }
        },
    }
    match hash_password(req.password.as_str()) {
        Err(e) => Err(e),
        Ok(h) => Ok(NewUser::from_registration(req, h)),
    }
}

/// Maps the store's answer to an insert: the new account's id, or the conflict that
/// the store's own constraints reported.
pub fn insert_outcome(r: Result<i32, InsertError>) -> (out: Result<i32, AuthError>)
    ensures
        out == match r {
            Ok(id) => Ok::<i32, AuthError>(id),
            Err(InsertError::UsernameConflict) => Err(AuthError::UsernameTaken),
            Err(InsertError::EmailConflict) => Err(AuthError::EmailTaken),
            Err(InsertError::Other) => Err(AuthError::InternalError),
        },
{
    match r {
        Ok(id) => Ok(id),
        Err(InsertError::UsernameConflict) => Err(AuthError::UsernameTaken),
        Err(InsertError::EmailConflict) => Err(AuthError::EmailTaken),
        Err(InsertError::Other) => Err(AuthError::InternalError),
    }
}

impl Model {
    /// Stamps an account before it is written: an insert sets the creation time and
    /// marks the account active; every write refreshes the update time.
    pub fn before_save(&mut self, insert: bool, now: i64)
        ensures
            final(self).updated_at == now,
            final(self).created_at == if insert { now } else { old(self).created_at },
            final(self).active == (insert || old(self).active),
            final(self).id == old(self).id,
            final(self).username == old(self).username,
            final(self).password == old(self).password,
            final(self).email == old(self).email,
            final(self).phone == old(self).phone,
    {
        if insert {
            self.created_at = now;
            self.active = true;
        }
        self.updated_at = now;
    }
}

} // verus!
