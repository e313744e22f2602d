use vstd::prelude::*;
use vstd::string::*;
use crate::responses::{text, NetworkResponse};

verus! {

/// A stored user; `password` holds the bcrypt hash.
pub struct User {
    pub id: i32,
    pub username: String,
    pub password: String,
}

/// A registration request, and the row stored for it once hashed.
pub struct NewUser {
    pub username: String,
    pub password: String,
}

/// A login request.
pub struct LoginUser {
    pub username: String,
    pub password: String,
}

/// What the profile endpoint shows.
pub struct UserProfile {
    pub username: String,
}

/// A password change request.
pub struct ChangePasswordRequest {
    pub old_password: String,
    pub new_password: String,
}

/// What a bearer token carries: the user id and the expiry, in seconds
/// since the Unix epoch.
#[derive(PartialEq, Eq, Structural, Clone, Copy, Debug)]
pub struct Claims {
    pub subject_id: i32,
    pub exp: usize,
}

/// An authenticated request's identity.
#[derive(PartialEq, Eq, Structural, Clone, Copy, Debug)]
pub struct Jwt {
    pub claims: Claims,
}

/// Why a bearer token was not accepted.
pub enum TokenFailure {
    Missing,
    Expired,
    Invalid,
    Other(String),
}

/// Whether `char::is_alphabetic` holds of the character.
pub uninterp spec fn alphabetic(c: char) -> bool;

/// Whether `char::is_numeric` holds of the character.
pub uninterp spec fn numeric(c: char) -> bool;

/// What `bcrypt::verify` gives for a password and a stored hash: whether
/// they match, or `None` when it fails (a malformed hash).
pub uninterp spec fn bcrypt_outcome(password: Seq<char>, hash: Seq<char>) -> Option<bool>;

/// What `str::trim` leaves of a text.
pub uninterp spec fn trimmed(s: Seq<char>) -> Seq<char>;

/// Relies on `char::is_alphabetic`: a property of the character alone.
#[verifier::external_body]
fn is_alphabetic(c: char) -> (r: bool)
    ensures
        r == alphabetic(c),
{
    c.is_alphabetic()
}

/// Relies on `char::is_numeric`: a property of the character alone.
#[verifier::external_body]
fn is_numeric(c: char) -> (r: bool)
    ensures
        r == numeric(c),
{
    c.is_numeric()
}

/// Relies on `char::is_alphanumeric`, documented as "either
/// `is_alphabetic()` or `is_numeric()`".
#[verifier::external_body]
fn is_alphanumeric(c: char) -> (r: bool)
    ensures
        r == (alphabetic(c) || numeric(c)),
{
    c.is_alphanumeric()
}

/// Relies on `bcrypt::verify`: its result, error included, is a function of
/// the password and the hash; an error is returned as its text.
#[verifier::external_body]
fn verify_password(password: &String, hash: &String) -> (r: Result<bool, String>)
    ensures
        r matches Ok(b) ==> bcrypt_outcome(password@, hash@) == Some(b),
        r is Err ==> bcrypt_outcome(password@, hash@) is None,
{
    match bcrypt::verify(password, hash) {
        Ok(b) => Ok(b),
        Err(e) => Err(e.to_string()),
    }
}

/// Relies on `bcrypt::hash` at `DEFAULT_COST`: the salt is random, but
/// the hash records salt and cost, so `bcrypt::verify` of the same password
/// against it re-derives it and matches; a failure gives the error's text.
#[verifier::external_body]
fn hash_password(password: &String) -> (r: Result<String, String>)
    ensures
        r matches Ok(h) ==> bcrypt_outcome(password@, h@) == Some(true),
{
    match bcrypt::hash(password, bcrypt::DEFAULT_COST) {
        Ok(h) => Ok(h),
        Err(e) => Err(e.to_string()),
    }
}

/// Relies on `str::trim`: the result depends on the text alone.
#[verifier::external_body]
fn trim(s: &str) -> (r: String)
    ensures
        r@ == trimmed(s@),
{
    s.trim().to_string()
}

pub open spec fn is_special(c: char) -> bool {
    c == '!' || c == '@' || c == '#' || c == '$' || c == '%' || c == '^' || c == '&' || c == '*'
}

/// A password has a letter and a digit, and either one of `!@#$%^&*` or
/// only letters and digits.
pub open spec fn password_strong(p: Seq<char>) -> bool {
    &&& exists|i: int| 0 <= i < p.len() && alphabetic(#[trigger] p[i])
    &&& exists|i: int| 0 <= i < p.len() && numeric(#[trigger] p[i])
    &&& (exists|i: int| 0 <= i < p.len() && is_special(#[trigger] p[i])) || (forall|i: int|
        0 <= i < p.len() ==> alphabetic(#[trigger] p[i]) || numeric(p[i]))
}

pub open spec fn is_ascii_alnum(c: char) -> bool {
    ('a' <= c && c <= 'z') || ('A' <= c && c <= 'Z') || ('0' <= c && c <= '9')
}

/// A username is at least three ASCII letters or digits.
pub open spec fn username_ok(u: Seq<char>) -> bool {
    u.len() >= 3 && forall|i: int| 0 <= i < u.len() ==> is_ascii_alnum(#[trigger] u[i])
}

/// Registration input: a valid username and a strong password of at
/// least six characters.
pub open spec fn new_user_ok(u: NewUser) -> bool {
    username_ok(u.username@) && u.password@.len() >= 6 && password_strong(u.password@)
}

/// Login input: a username of at least three characters and a password of
/// at least six.
pub open spec fn login_ok(u: LoginUser) -> bool {
    u.username@.len() >= 3 && u.password@.len() >= 6
}

/// Checks the password strength rule.
pub fn validate_password(password: &String) -> (r: Result<(), String>)
    ensures
        r is Ok <==> password_strong(password@),
{
    let s = password.as_str();
    let n = s.unicode_len();
    let mut has_letter = false;
    let mut has_number = false;
    let mut has_special = false;
    let mut all_alnum = true;
    let mut i: usize = 0;
    while i < n
        invariant
            n == s@.len(),
            s@ == password@,
            i <= n,
            has_letter == exists|k: int| 0 <= k < i && alphabetic(#[trigger] s@[k]),
            has_number == exists|k: int| 0 <= k < i && numeric(#[trigger] s@[k]),
            has_special == exists|k: int| 0 <= k < i && is_special(#[trigger] s@[k]),
            all_alnum == forall|k: int| 0 <= k < i ==> alphabetic(#[trigger] s@[k]) || numeric(s@[k]),
        decreases n - i,
    {
        let c = s.get_char(i);
        if is_alphabetic(c) {
            has_letter = true;
        }
        if is_numeric(c) {
            has_number = true;
        }
        if c == '!' || c == '@' || c == '#' || c == '$' || c == '%' || c == '^' || c == '&' || c == '*' {
            has_special = true;
        }
        if !is_alphanumeric(c) {
            all_alnum = false;
        }
        i = i + 1;
        assert(s@[i - 1] == c);
    }
    if has_letter && has_number && (has_special || all_alnum) {
        Ok(())
    } else {
        Err(text("Password requirements not met"))
    }
}

/// Checks the username rule.
pub fn validate_username(username: &String) -> (r: bool)
    ensures
        r == username_ok(username@),
{
    let s = username.as_str();
    let n = s.unicode_len();
    if n < 3 {
        return false;
    }
    let mut i: usize = 0;
    while i < n
        invariant
            n == s@.len(),
            s@ == username@,
            i <= n,
            forall|k: int| 0 <= k < i ==> is_ascii_alnum(#[trigger] s@[k]),
        decreases n - i,
    {
        let c = s.get_char(i);
        if !(('a' <= c && c <= 'z') || ('A' <= c && c <= 'Z') || ('0' <= c && c <= '9')) {
            return false;
        }
        i = i + 1;
    }
    true
}

impl NewUser {
    /// Checks a registration request.
    pub fn validate(&self) -> (r: bool)
        ensures
            r == new_user_ok(*self),
    {
        validate_username(&self.username) && self.password.as_str().unicode_len() >= 6
            && validate_password(&self.password).is_ok()
    }
}

impl LoginUser {
    /// Checks a login request.
    pub fn validate(&self) -> (r: bool)
        ensures
            r == login_ok(*self),
    {
        self.username.as_str().unicode_len() >= 3 && self.password.as_str().unicode_len() >= 6
    }
}

/// Registration: an invalid request is refused before anything is
/// hashed or stored; otherwise the row to store has the username and the
/// hashed password, unless hashing fails.
pub fn register(new_user: &NewUser) -> (r: Result<NewUser, NetworkResponse>)
    ensures
        !new_user_ok(*new_user) <==> r matches Err(NetworkResponse::BadRequest(_)),
        !new_user_ok(*new_user) ==> (r matches Err(NetworkResponse::BadRequest(m)) && m@ == "Invalid user input"@),
        r matches Ok(row) ==> row.username@ == new_user.username@ && bcrypt_outcome(
            new_user.password@,
            row.password@,
        ) == Some(true),
        r matches Err(e) ==> e is BadRequest || e is InternalServerError,
{
    if !new_user.validate() {
        return Err(NetworkResponse::BadRequest(text("Invalid user input")));
    }
    match hash_password(&new_user.password) {
        Ok(hashed) => Ok(NewUser { username: new_user.username.clone(), password: hashed }),
        Err(_) => Err(NetworkResponse::InternalServerError(text("Failed to hash password"))),
    }
}

/// The login decision once the user has been looked up and, if found, the
/// password checked: unknown user is 404, a mismatch 401, a failed check
/// 500, and a match yields the user's id for the token.
pub fn login_outcome(user: Option<&User>, verified: Result<bool, String>) -> (r: Result<i32, NetworkResponse>)
    ensures
        match user {
            None => r matches Err(NetworkResponse::NotFound(_)),
            Some(u) => match verified {
                Ok(true) => r == Ok::<i32, NetworkResponse>(u.id),
                Ok(false) => r matches Err(NetworkResponse::Unauthorized(_)),
                Err(_) => r matches Err(NetworkResponse::InternalServerError(_)),
            },
        },
{
    match user {
        None => Err(NetworkResponse::NotFound(text("Failed to find user"))),
        Some(u) => match verified {
            Ok(true) => Ok(u.id),
            Ok(false) => Err(NetworkResponse::Unauthorized(text("Failed to authorize access"))),
            Err(_) => Err(NetworkResponse::InternalServerError(text("Failed to verify password"))),
        },
    }
}

/// Login: a malformed request is 400; an unknown username 404; a wrong
/// password 401; the right one yields the id of the user found, which the
/// token then carries.
pub fn login_user(login: &LoginUser, user: Option<&User>) -> (r: Result<i32, NetworkResponse>)
    ensures
        !login_ok(*login) ==> (r matches Err(NetworkResponse::BadRequest(m)) && m@ == "Invalid user input"@),
        login_ok(*login) ==> match user {
            None => r matches Err(NetworkResponse::NotFound(_)),
            Some(u) => match bcrypt_outcome(login.password@, u.password@) {
                Some(true) => r == Ok::<i32, NetworkResponse>(u.id),
                Some(false) => r matches Err(NetworkResponse::Unauthorized(_)),
                None => r matches Err(NetworkResponse::InternalServerError(_)),
            },
        },
{
    if !login.validate() {
        return Err(NetworkResponse::BadRequest(text("Invalid user input")));
    }
    match user {
        None => login_outcome(None, Ok(false)),
        Some(u) => {
            let verified = verify_password(&login.password, &u.password);
            login_outcome(Some(u), verified)
        },
    }
}

/// The password check of a change request: a match lets it proceed, a
/// mismatch is 400, a failed check 500.
pub fn password_check_outcome(verified: Result<bool, String>) -> (r: Result<(), NetworkResponse>)
    ensures
        match verified {
            Ok(true) => r is Ok,
            Ok(false) => r matches Err(NetworkResponse::BadRequest(_)),
            Err(_) => r matches Err(NetworkResponse::InternalServerError(_)),
        },
{
    match verified {
        Ok(true) => Ok(()),
        Ok(false) => Err(NetworkResponse::BadRequest(text("Incorrect current password"))),
        Err(_) => Err(NetworkResponse::InternalServerError(text("Failed to verify old password"))),
    }
}

/// Password change: the user must exist (else 404) and the current
/// password must match (else 400); then the new password's hash is what
/// gets stored. Nothing is returned to store unless both hold.
pub fn change_password(user: Option<&User>, request: &ChangePasswordRequest) -> (r: Result<String, NetworkResponse>)
    ensures
        match user {
            None => r matches Err(NetworkResponse::NotFound(_)),
            Some(u) => match bcrypt_outcome(request.old_password@, u.password@) {
                Some(true) => r is Ok || r matches Err(NetworkResponse::InternalServerError(_)),
                Some(false) => r matches Err(NetworkResponse::BadRequest(_)),
                None => r matches Err(NetworkResponse::InternalServerError(_)),
            },
        },
        r matches Ok(h) ==> bcrypt_outcome(request.new_password@, h@) == Some(true),
{
    let u = match user {
        None => {
            return Err(NetworkResponse::NotFound(text("Failed to find user")));
        },
        Some(u) => u,
    };
    let verified = verify_password(&request.old_password, &u.password);
    match password_check_outcome(verified) {
        Ok(()) => {},
        Err(e) => {
            return Err(e);
        },
    }
    match hash_password(&request.new_password) {
        Ok(h) => Ok(h),
        Err(_) => Err(NetworkResponse::InternalServerError(text("Failed to hash password"))),
    }
}

/// The profile of the user found, or 404.
pub fn fetch_user_profile(user: Option<&User>) -> (r: Result<UserProfile, NetworkResponse>)
    ensures
        match user {
            Some(u) => r matches Ok(p) && p.username@ == u.username@,
            None => r matches Err(NetworkResponse::NotFound(_)),
        },
{
    match user {
        Some(u) => Ok(UserProfile { username: u.username.clone() }),
        None => Err(NetworkResponse::NotFound(text("User profile not found"))),
    }
}

/// How long an issued token stays valid: six hours.
pub const TOKEN_LIFETIME_SECS: i64 = 21600;

impl Claims {
    /// The claims of a token issued at `now` (seconds since the epoch) for
    /// a user: the user's id, expiring six hours later. `None` when that
    /// instant is not a representable expiry.
    pub fn issue(subject_id: i32, now: i64) -> (r: Option<Claims>)
        ensures
            (0 <= now + TOKEN_LIFETIME_SECS <= usize::MAX) <==> r is Some,
            r matches Some(c) ==> c.subject_id == subject_id && c.exp == now + TOKEN_LIFETIME_SECS,
    {
        if now < -TOKEN_LIFETIME_SECS {
            return None;
        }
        let exp: u64 = if now >= 0 {
            now as u64 + TOKEN_LIFETIME_SECS as u64
        } else {
            (now + TOKEN_LIFETIME_SECS) as u64
        };
        if exp > usize::MAX as u64 {
            return None;
        }
        Some(Claims { subject_id, exp: exp as usize })
    }
}

/// The text with any leading run of `Bearer` removed.
pub open spec fn strip_bearer(s: Seq<char>) -> Seq<char>
    decreases s.len(),
{
    if s.len() >= 6 && s.take(6) == "Bearer"@ {
        strip_bearer(s.skip(6))
    } else {
        s
    }
}

fn starts_with_bearer(s: &str) -> (r: bool)
    ensures
        r == (s@.len() >= 6 && s@.take(6) == "Bearer"@),
{
    proof {
        reveal_strlit("Bearer");
    }
    if s.unicode_len() < 6 {
        return false;
    }
    assert("Bearer"@ =~= seq!['B', 'e', 'a', 'r', 'e', 'r']);
    let r = s.get_char(0) == 'B' && s.get_char(1) == 'e' && s.get_char(2) == 'a' && s.get_char(3) == 'r'
        && s.get_char(4) == 'e' && s.get_char(5) == 'r';
    assert(r ==> s@.take(6) =~= "Bearer"@);
    assert(s@.take(6) == "Bearer"@ ==> s@.take(6)[0] == 'B' && s@.take(6)[1] == 'e' && s@.take(6)[2] == 'a'
        && s@.take(6)[3] == 'r' && s@.take(6)[4] == 'e' && s@.take(6)[5] == 'r');
    r
}

/// The token inside an `Authorization` header: the value without its
/// leading `Bearer`, trimmed.
pub fn bearer_credential(header: &str) -> (r: String)
    ensures
        r@ == trimmed(strip_bearer(header@)),
{
    let mut rest: &str = header;
    while starts_with_bearer(rest)
        invariant
            strip_bearer(rest@) == strip_bearer(header@),
        decreases rest@.len(),
    {
        let n = rest.unicode_len();
        rest = rest.substring_char(6, n);
    }
    trim(rest)
}

/// The identity of a request from its decoded token, or 401 with the
/// reason: no token, an expired one, an invalid one, or another failure.
pub fn authorize(decoded: Result<Claims, TokenFailure>) -> (r: Result<Jwt, NetworkResponse>)
    ensures
        match decoded {
            Ok(c) => r == Ok::<Jwt, NetworkResponse>(Jwt { claims: c }),
            Err(TokenFailure::Missing) => (r matches Err(NetworkResponse::Unauthorized(m))
                && m@ == "Error validating Jwt token - No token provided"@),
            Err(TokenFailure::Expired) => (r matches Err(NetworkResponse::Unauthorized(m))
                && m@ == "Error validating Jwt token - Expired Token"@),
            Err(TokenFailure::Invalid) => (r matches Err(NetworkResponse::Unauthorized(m))
                && m@ == "Error validating Jwt token - Invalid Token"@),
            Err(TokenFailure::Other(reason)) => (r matches Err(NetworkResponse::Unauthorized(m))
                && m@ == "Error validating Jwt token - "@ + reason@),
        },
{
    match decoded {
        Ok(claims) => Ok(Jwt { claims }),
        Err(TokenFailure::Missing) => Err(
            NetworkResponse::Unauthorized(text("Error validating Jwt token - No token provided")),
        ),
        Err(TokenFailure::Expired) => Err(
            NetworkResponse::Unauthorized(text("Error validating Jwt token - Expired Token")),
        ),
        Err(TokenFailure::Invalid) => Err(
            NetworkResponse::Unauthorized(text("Error validating Jwt token - Invalid Token")),
        ),
        Err(TokenFailure::Other(reason)) => Err(
            NetworkResponse::Unauthorized(text("Error validating Jwt token - ").concat(reason.as_str())),
        ),
    }
}

} // verus!
