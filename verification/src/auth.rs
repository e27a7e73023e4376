//! Accounts: registration checks, password hashing and checking, bearer tokens, token
//! claims and profile updates.
use vstd::prelude::*;
use crate::ids::latest_timestamp;
use crate::text::{byte_len, chars_of, str_byte_len, str_eq, string_from_range};
use crate::validation::{
    email_verdict, password_verdict, result_view, username_verdict, validate_email, validate_password,
    validate_username,
};

verus! {

#[verifier::external_type_specification]
#[verifier::external_body]
pub struct ExBcryptError(bcrypt::BcryptError);

/// What `bcrypt::verify` answers for `password` against `hash`: `Some` of whether they
/// match, or `None` when it fails (a hash it cannot read).
pub uninterp spec fn bcrypt_verify_result(password: Seq<char>, hash: Seq<char>) -> Option<bool>;

/// `bcrypt::verify`. Claims that the answer is a function of the password and the hash.
#[verifier::external_body]
fn bcrypt_verify(password: &str, hash: &str) -> (r: Result<bool, bcrypt::BcryptError>)
    ensures
        match r {
            Ok(b) => bcrypt_verify_result(password@, hash@) == Some(b),
            Err(_) => bcrypt_verify_result(password@, hash@) is None,
        },
{
    bcrypt::verify(password, hash)
}

/// `bcrypt::hash` at `bcrypt::DEFAULT_COST`. The salt is random, so nothing is claimed of
/// the hash itself; the claim is that `bcrypt::verify` accepts the password against it (it
/// re-hashes the password with the salt and cost that the hash carries).
#[verifier::external_body]
fn bcrypt_hash(password: &str) -> (r: Result<String, bcrypt::BcryptError>)
    ensures
        r matches Ok(h) ==> bcrypt_verify_result(password@, h@) == Some(true),
{
    bcrypt::hash(password, bcrypt::DEFAULT_COST)
}

/// What a request about an account is refused with.
#[derive(Debug, PartialEq, Eq, Structural, Clone, Copy)]
pub enum AuthErrorKind {
    BadRequest,
    Unauthorized,
    NotFound,
    Conflict,
    Internal,
}

/// A refused request: its kind and the message reported with it.
#[derive(Debug)]
pub struct AuthError {
    pub kind: AuthErrorKind,
    pub message: String,
}

pub open spec fn err_is(e: AuthError, kind: AuthErrorKind, message: Seq<char>) -> bool {
    e.kind == kind && e.message@ == message
}

impl AuthError {
    /// The HTTP status a refusal is answered with.
    pub fn status(&self) -> (s: u16)
        ensures
            s == match self.kind {
                AuthErrorKind::BadRequest => 400u16,
                AuthErrorKind::Unauthorized => 401u16,
                AuthErrorKind::NotFound => 404u16,
                AuthErrorKind::Conflict => 409u16,
                AuthErrorKind::Internal => 500u16,
            },
    {
        match self.kind {
            AuthErrorKind::BadRequest => 400,
            AuthErrorKind::Unauthorized => 401,
            AuthErrorKind::NotFound => 404,
            AuthErrorKind::Conflict => 409,
            AuthErrorKind::Internal => 500,
        }
    }
}

fn auth_error(kind: AuthErrorKind, message: &str) -> (e: AuthError)
    ensures
        err_is(e, kind, message@),
{
    AuthError { kind, message: message.to_string() }
}

/// The claims a token carries.
#[derive(Debug)]
pub struct Claims {
    pub user_id: String,
    pub username: String,
    pub exp: usize,
}

pub struct RegisterRequest {
    pub username: String,
    pub email: String,
    pub password: String,
}

pub struct LoginRequest {
    pub username: String,
    pub password: String,
}

/// An account as reported to its owner. `created_at` is an RFC 3339 time stamp.
#[derive(Debug)]
pub struct User {
    pub id: String,
    pub username: String,
    pub email: String,
    pub created_at: String,
}

/// An account as stored: the reported fields and the password hash.
pub struct StoredUser {
    pub id: String,
    pub username: String,
    pub email: String,
    pub password_hash: String,
    pub created_at: String,
}

/// How long a token stays valid, in seconds.
pub const TOKEN_LIFETIME_SECS: i64 = 86400;

/// The secret used when none is configured.
pub fn default_jwt_secret() -> (s: String)
    ensures
        s@ == "your-secret-key-change-in-production"@,
{
    "your-secret-key-change-in-production".to_string()
}

/// The token secret: the configured one, else the default.
pub fn jwt_secret(configured: Option<String>) -> (s: String)
    ensures
        s@ == match configured {
            Some(c) => c@,
            None => "your-secret-key-change-in-production"@,
        },
{
    match configured {
        Some(c) => c,
        None => default_jwt_secret(),
    }
}

/// The expiry of a token issued at Unix time `now`: a day later, written as a `usize` the
/// way `as` writes an `i64` (a time before 1970 wraps around).
pub open spec fn exp_of(now: i64) -> usize {
    (now + TOKEN_LIFETIME_SECS) as usize
}

/// What issuing a token to `user` at Unix time `now` gives: `None` exactly when a day later
/// is past what an `i64` holds, else the user's claims expiring a day later.
pub open spec fn claims_outcome(user: User, now: i64, r: Option<Claims>) -> bool {
    match r {
        None => now > i64::MAX - TOKEN_LIFETIME_SECS,
        Some(c) => {
            &&& now <= i64::MAX - TOKEN_LIFETIME_SECS
            &&& c.user_id@ == user.id@
            &&& c.username@ == user.username@
            &&& c.exp == exp_of(now)
        },
    }
}

impl Claims {
    /// The claims of a token issued to `user` at Unix time `now`: it expires a day later.
    pub fn for_user(user: &User, now: i64) -> (c: Claims)
        requires
            now <= i64::MAX - TOKEN_LIFETIME_SECS,
        ensures
            c.user_id@ == user.id@,
            c.username@ == user.username@,
            c.exp == exp_of(now),
    {
        let later = now + TOKEN_LIFETIME_SECS;
        Claims { user_id: user.id.clone(), username: user.username.clone(), exp: later as usize }
    }

    /// The claims of a token issued to `user` at Unix time `now`, or `None` where a day
    /// later is past what an `i64` holds.
    pub fn claims_at(user: &User, now: i64) -> (r: Option<Claims>)
        ensures
            claims_outcome(*user, now, r),
    {
        if now <= i64::MAX - TOKEN_LIFETIME_SECS {
            Some(Claims::for_user(user, now))
        } else {
            None
        }
    }

    /// The claims of a token issued to `user` now: `claims_at` at the clock's reading,
    /// which always succeeds, the clock never reading past chrono's latest date.
    pub fn issue(user: &User) -> (r: Option<Claims>)
        ensures
            r is Some,
            exists|t: i64| 0 <= t <= latest_timestamp() && claims_outcome(*user, t, r),
    {
        let now = crate::ids::now_timestamp();
        Claims::claims_at(user, now)
    }
}

/// The outcome of checking a registration: the sanitized user name and e-mail address, or
/// the first field that is refused, with its rule.
pub open spec fn registration_verdict(req: RegisterRequest) -> Result<(Seq<char>, Seq<char>), Seq<char>> {
    match username_verdict(req.username@) {
        Err(e) => Err(e),
        Ok(u) => match email_verdict(req.email@) {
            Err(e) => Err(e),
            Ok(m) => match password_verdict(req.password@) {
                Err(e) => Err(e),
                Ok(_) => Ok((u, m)),
            },
        },
    }
}

impl RegisterRequest {
    /// Checks the user name, the e-mail address and the password, in that order; returns
    /// the sanitized user name and e-mail address.
    pub fn validate(&self) -> (r: Result<(String, String), AuthError>)
        ensures
            match registration_verdict(*self) {
                Ok((u, m)) => r matches Ok((u2, m2)) && u2@ == u && m2@ == m,
                Err(msg) => r matches Err(e) && err_is(e, AuthErrorKind::BadRequest, msg),
            },
    {
        let username = match validate_username(self.username.as_str()) {
            Ok(u) => u,
            Err(e) => {
                return Err(AuthError { kind: AuthErrorKind::BadRequest, message: e });
            },
        };
        let email = match validate_email(self.email.as_str()) {
            Ok(m) => m,
            Err(e) => {
                return Err(AuthError { kind: AuthErrorKind::BadRequest, message: e });
            },
        };
        match validate_password(self.password.as_str()) {
            Ok(_) => {},
            Err(e) => {
                return Err(AuthError { kind: AuthErrorKind::BadRequest, message: e });
            },
        }
        Ok((username, email))
    }
}

/// A registration that names a user or an address already taken is refused.
pub fn registration_conflict() -> (e: AuthError)
    ensures
        err_is(e, AuthErrorKind::Conflict, "Username or email already exists"@),
{
    auth_error(AuthErrorKind::Conflict, "Username or email already exists")
}

/// The hash stored for a new account's password.
pub fn hash_new_password(password: &str) -> (r: Result<String, AuthError>)
    ensures
        match r {
            Ok(h) => bcrypt_verify_result(password@, h@) == Some(true),
            Err(e) => err_is(e, AuthErrorKind::Internal, "Failed to process password"@),
        },
{
    match bcrypt_hash(password) {
        Ok(h) => Ok(h),
        Err(_) => Err(auth_error(AuthErrorKind::Internal, "Failed to process password")),
    }
}

/// The answer to a login: the account when the password matches its hash, else the refusal.
pub open spec fn login_verdict(found: Option<StoredUser>, password: Seq<char>) -> Result<
    Seq<char>,
    (AuthErrorKind, Seq<char>),
> {
    match found {
        None => Err((AuthErrorKind::Unauthorized, "Invalid username or password"@)),
        Some(u) => match bcrypt_verify_result(password, u.password_hash@) {
            None => Err((AuthErrorKind::Internal, "Authentication error"@)),
            Some(false) => Err((AuthErrorKind::Unauthorized, "Invalid username or password"@)),
            Some(true) => Ok(u.id@),
        },
    }
}

/// Checks a login against the account stored under its user name, if any.
pub fn check_login(found: Option<StoredUser>, password: &str) -> (r: Result<User, AuthError>)
    ensures
        match login_verdict(found, password@) {
            Ok(id) => r matches Ok(u) && u.id@ == id && u.username@ == found->0.username@
                && u.email@ == found->0.email@ && u.created_at@ == found->0.created_at@,
            Err((kind, msg)) => r matches Err(e) && err_is(e, kind, msg),
        },
{
    match found {
        None => Err(auth_error(AuthErrorKind::Unauthorized, "Invalid username or password")),
        Some(row) => {
            match bcrypt_verify(password, row.password_hash.as_str()) {
                Err(_) => Err(auth_error(AuthErrorKind::Internal, "Authentication error")),
                Ok(false) => Err(auth_error(AuthErrorKind::Unauthorized, "Invalid username or password")),
                Ok(true) => Ok(
                    User { id: row.id, username: row.username, email: row.email, created_at: row.created_at },
                ),
            }
        },
    }
}

/// A password hashed at registration logs in against the account stored with that hash.
pub proof fn law_registered_password_logs_in(password: Seq<char>, hash: Seq<char>, row: StoredUser)
    requires
        bcrypt_verify_result(password, hash) == Some(true),
        row.password_hash@ == hash,
    ensures
        login_verdict(Some(row), password) == Ok::<Seq<char>, (AuthErrorKind, Seq<char>)>(row.id@),
{
}

/// A byte `HeaderValue::to_str` accepts: visible ASCII or a tab.
pub open spec fn visible_ascii(b: u8) -> bool {
    (32 <= b && b < 127) || b == 9
}

/// The characters of ASCII bytes.
pub open spec fn ascii_chars(bs: Seq<u8>) -> Seq<char> {
    bs.map_values(|b: u8| b as char)
}

/// The answer to an `Authorization` header (its bytes, when it is present): the bearer
/// token it carries, or the refusal.
pub open spec fn bearer_verdict(header: Option<Seq<u8>>) -> Result<Seq<char>, Seq<char>> {
    match header {
        None => Err("Missing authorization header"@),
        Some(bs) => if !(forall|i: int| 0 <= i < bs.len() ==> visible_ascii(#[trigger] bs[i])) {
            Err("Invalid authorization header"@)
        } else if !(ascii_chars(bs).len() >= 7 && ascii_chars(bs).take(7) == "Bearer "@) {
            Err("Invalid authorization format"@)
        } else {
            Ok(ascii_chars(bs).skip(7))
        },
    }
}

/// The bytes of `Bearer `.
pub open spec fn bearer_prefix() -> Seq<u8> {
    seq![66u8, 101u8, 97u8, 114u8, 101u8, 114u8, 32u8]
}

/// A header made of `Bearer ` and a token of visible ASCII gives back that token.
pub proof fn law_bearer_round_trip(token: Seq<u8>)
    requires
        forall|i: int| 0 <= i < token.len() ==> visible_ascii(#[trigger] token[i]),
    ensures
        bearer_verdict(Some(bearer_prefix() + token)) == Ok::<Seq<char>, Seq<char>>(ascii_chars(token)),
{
    reveal_strlit("Bearer ");
    let h = bearer_prefix() + token;
    assert forall|i: int| 0 <= i < h.len() implies visible_ascii(#[trigger] h[i]) by {
        if i >= 7 {
            assert(h[i] == token[i - 7]);
        }
    }
    assert(ascii_chars(h).take(7) =~= "Bearer "@);
    assert(ascii_chars(h).skip(7) =~= ascii_chars(token));
}

/// The bearer token of an `Authorization` header.
pub fn bearer_token(header: Option<Vec<u8>>) -> (r: Result<String, AuthError>)
    ensures
        match bearer_verdict(
            match header {
                Some(v) => Some(v@),
                None => None,
            },
        ) {
            Ok(t) => r matches Ok(s) && s@ == t,
            Err(msg) => r matches Err(e) && err_is(e, AuthErrorKind::Unauthorized, msg),
        },
{
    let bytes = match header {
        None => {
            return Err(auth_error(AuthErrorKind::Unauthorized, "Missing authorization header"));
        },
        Some(b) => b,
    };
    let mut chars: Vec<char> = Vec::new();
    let mut i: usize = 0;
    while i < bytes.len()
        invariant
            header == Some(bytes),
            i <= bytes.len(),
            forall|k: int| 0 <= k < i ==> visible_ascii(#[trigger] bytes@[k]),
            chars@ == ascii_chars(bytes@.take(i as int)),
        decreases bytes.len() - i,
    {
        let b = bytes[i];
        if !((32 <= b && b < 127) || b == 9) {
            assert(!visible_ascii(bytes@[i as int]));
            return Err(auth_error(AuthErrorKind::Unauthorized, "Invalid authorization header"));
        }
        chars.push(b as char);
        proof {
            assert(ascii_chars(bytes@.take(i + 1)) =~= ascii_chars(bytes@.take(i as int)).push(b as char));
        }
        i = i + 1;
    }
    proof {
        assert(bytes@.take(bytes.len() as int) =~= bytes@);
    }
    let prefix = "Bearer ";
    let p = chars_of(prefix);
    proof {
        reveal_strlit("Bearer ");
    }
    let mut ok = chars.len() >= 7;
    let mut k: usize = 0;
    while ok && k < 7
        invariant
            p@ == "Bearer "@,
            p@.len() == 7,
            k <= 7,
            ok ==> chars.len() >= 7,
            ok ==> forall|j: int| 0 <= j < k ==> chars@[j] == p@[j],
            !ok ==> !(chars@.len() >= 7 && chars@.take(7) == "Bearer "@),
        decreases 7 - k,
    {
        if chars[k] != p[k] {
            ok = false;
            proof {
                if chars@.len() >= 7 && chars@.take(7) == "Bearer "@ {
                    assert(chars@.take(7)[k as int] == chars@[k as int]);
                }
            }
        }
        k = k + 1;
    }
    if !ok {
        return Err(auth_error(AuthErrorKind::Unauthorized, "Invalid authorization format"));
    }
    proof {
        assert(chars@.take(7) =~= "Bearer "@);
    }
    let token = string_from_range(&chars, 7, chars.len());
    proof {
        assert(chars@.subrange(7, chars@.len() as int) =~= chars@.skip(7));
    }
    Ok(token)
}

/// The fields of an account that a profile update asks to change: the user name when it is
/// a string, the e-mail address when it is a string, and the preferences (as JSON text)
/// when the key is present.
pub struct ProfileUpdate {
    pub username: Option<String>,
    pub email: Option<String>,
    pub preferences: Option<String>,
}

/// One column a profile update writes, with its new value.
#[derive(Debug)]
pub enum ProfileField {
    Username(String),
    Email(String),
    Preferences(String),
}

pub enum ProfileFieldView {
    Username(Seq<char>),
    Email(Seq<char>),
    Preferences(Seq<char>),
}

pub open spec fn field_view(f: ProfileField) -> ProfileFieldView {
    match f {
        ProfileField::Username(s) => ProfileFieldView::Username(s@),
        ProfileField::Email(s) => ProfileFieldView::Email(s@),
        ProfileField::Preferences(s) => ProfileFieldView::Preferences(s@),
    }
}

/// The columns a profile update writes, in order, or its refusal. The user name must hold
/// 3 to 50 bytes and the address an `@`; at least one field must be given.
pub open spec fn profile_verdict(u: ProfileUpdate) -> Result<Seq<ProfileFieldView>, Seq<char>> {
    if u.username matches Some(n) && (byte_len(n@) < 3 || byte_len(n@) > 50) {
        Err("Username must be between 3 and 50 characters"@)
    } else if u.email matches Some(m) && !m@.contains('@') {
        Err("Invalid email format"@)
    } else if u.username is None && u.email is None && u.preferences is None {
        Err("No valid fields to update"@)
    } else {
        let a = match u.username {
            Some(n) => seq![ProfileFieldView::Username(n@)],
            None => Seq::empty(),
        };
        let b = match u.email {
            Some(m) => seq![ProfileFieldView::Email(m@)],
            None => Seq::empty(),
        };
        let c = match u.preferences {
            Some(p) => seq![ProfileFieldView::Preferences(p@)],
            None => Seq::empty(),
        };
        Ok(a + b + c)
    }
}

fn contains_at(s: &str) -> (r: bool)
    ensures
        r == s@.contains('@'),
{
    let v = chars_of(s);
    let mut i: usize = 0;
    while i < v.len()
        invariant
            v@ == s@,
            i <= v.len(),
            forall|k: int| 0 <= k < i ==> v@[k] != '@',
        decreases v.len() - i,
    {
        if v[i] == '@' {
            return true;
        }
        i = i + 1;
    }
    false
}

impl ProfileUpdate {
    /// The columns to write, in the order user name, e-mail address, preferences.
    pub fn plan(self) -> (r: Result<Vec<ProfileField>, AuthError>)
        ensures
            match profile_verdict(self) {
                Ok(fs) => r matches Ok(v) && v@.map_values(|f: ProfileField| field_view(f)) == fs,
                Err(msg) => r matches Err(e) && err_is(e, AuthErrorKind::BadRequest, msg),
            },
    {
        let ghost u = self;
        let mut fields: Vec<ProfileField> = Vec::new();
        let ghost mut expect: Seq<ProfileFieldView> = Seq::empty();
        if let Some(name) = self.username {
            let n = str_byte_len(name.as_str());
            if n < 3 || n > 50 {
                return Err(auth_error(AuthErrorKind::BadRequest, "Username must be between 3 and 50 characters"));
            }
            proof {
                expect = seq![ProfileFieldView::Username(name@)];
            }
            fields.push(ProfileField::Username(name));
        }
        if let Some(email) = self.email {
            if !contains_at(email.as_str()) {
                return Err(auth_error(AuthErrorKind::BadRequest, "Invalid email format"));
            }
            proof {
                expect = expect + seq![ProfileFieldView::Email(email@)];
            }
            fields.push(ProfileField::Email(email));
        }
        if let Some(p) = self.preferences {
            proof {
                expect = expect + seq![ProfileFieldView::Preferences(p@)];
            }
            fields.push(ProfileField::Preferences(p));
        }
        if fields.len() == 0 {
            return Err(auth_error(AuthErrorKind::BadRequest, "No valid fields to update"));
        }
        proof {
            assert(fields@.map_values(|f: ProfileField| field_view(f)) =~= expect);
            assert(expect =~= profile_verdict(u)->Ok_0);
        }
        Ok(fields)
    }
}

/// An update that changed no row is answered with `User not found`.
pub fn profile_update_outcome(rows_affected: u64) -> (r: Result<(), AuthError>)
    ensures
        rows_affected == 0 ==> (r matches Err(e) && err_is(e, AuthErrorKind::NotFound, "User not found"@)),
        rows_affected > 0 ==> r is Ok,
{
    if rows_affected == 0 {
        Err(auth_error(AuthErrorKind::NotFound, "User not found"))
    } else {
        Ok(())
    }
}

} // verus!
