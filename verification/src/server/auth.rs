//! Account rules: what a registration must satisfy, how a login is decided,
//! what a session token claims and how it is read from a request header.
//! Storing players and signing tokens are done around these.
use vstd::prelude::*;
use vstd::string::StrSliceExecFns;
use vstd::utf8::encode_utf8;

use argon2::{PasswordHasher, PasswordVerifier};

use crate::models::{current_time, Player, Timestamp};

verus! {

/// The body of a registration request.
#[derive(Debug, Clone)]
pub struct RegisterRequest {
    pub username: String,
    pub password: String,
}

/// The body of a login request.
#[derive(Debug, Clone)]
pub struct LoginRequest {
    pub username: String,
    pub password: String,
}

/// What a successful registration or login answers.
#[derive(Debug, Clone)]
pub struct AuthResponse {
    pub token: String,
    pub player_id: u128,
    pub username: String,
}

/// What a session token claims: the player, the name, and when it expires
/// (seconds since the Unix epoch).
#[derive(Debug, Clone)]
pub struct Claims {
    pub sub: u128,
    pub username: String,
    pub exp: usize,
}

/// Why an account request is refused.
#[derive(Debug, Clone)]
pub enum AuthError {
    /// The user name is shorter than 3 or longer than 64 bytes.
    InvalidUsername,
    /// The password is shorter than 6 bytes.
    PasswordTooShort,
    /// Unknown user or wrong password.
    InvalidCredentials,
    /// The `Authorization` header is absent.
    MissingHeader,
    /// The `Authorization` header does not start with `Bearer `.
    InvalidHeader,
    /// Something failed on the server's side, with its message.
    Internal(String),
}

/// Checks a registration: a user name of 3 to 64 bytes and a password of at
/// least 6 bytes, the user name first.
pub fn validate_registration(req: &RegisterRequest) -> (r: Result<(), AuthError>)
    ensures
        ({
            let name = encode_utf8(req.username@).len();
            let pass = encode_utf8(req.password@).len();
            if name < 3 || name > 64 {
                r matches Err(AuthError::InvalidUsername)
            } else if pass < 6 {
                r matches Err(AuthError::PasswordTooShort)
            } else {
                r is Ok
            }
        }),
{
    let name = req.username.as_str().as_bytes().len();
    if name < 3 || name > 64 {
        return Err(AuthError::InvalidUsername);
    }
    if req.password.as_str().as_bytes().len() < 6 {
        return Err(AuthError::PasswordTooShort);
    }
    Ok(())
}

/// The token in an `Authorization` header of the form `Bearer <token>`.
pub fn bearer_token(header: Option<&str>) -> (r: Result<&str, AuthError>)
    ensures
        match header {
            None => r matches Err(AuthError::MissingHeader),
            Some(h) => if h@.len() >= 7 && h@.take(7) == "Bearer "@ {
                r matches Ok(t) && t@ == h@.skip(7)
            } else {
                r matches Err(AuthError::InvalidHeader)
            },
        },
{
    let h = match header {
        None => {
            return Err(AuthError::MissingHeader);
        },
        Some(h) => h,
    };
    let n = h.unicode_len();
    let prefix = "Bearer ";
    proof {
        reveal_strlit("Bearer ");
    }
    if n < 7 {
        return Err(AuthError::InvalidHeader);
    }
    let head = h.substring_char(0, 7);
    if !crate::text::str_equals(head, prefix) {
        return Err(AuthError::InvalidHeader);
    }
    Ok(h.substring_char(7, n))
}

/// Name for whether `password_hash::PasswordHash::new` reads `hash` as a
/// password hash.
pub uninterp spec fn hash_is_readable(hash: Seq<char>) -> bool;

/// Name for whether Argon2 verification accepts `password` against the
/// readable password hash `hash`, rehashing with the parameters and salt
/// that `hash` carries.
pub uninterp spec fn password_accepted(password: Seq<char>, hash: Seq<char>) -> bool;

/// `PasswordHash::new`: trusted to succeed exactly on the hashes it reads,
/// with the error's text otherwise.
#[verifier::external_body]
fn read_hash(hash: &str) -> (r: Result<(), String>)
    ensures
        r is Ok == hash_is_readable(hash@),
{
    match argon2::PasswordHash::new(hash) {
        Ok(_) => Ok(()),
        Err(e) => Err(e.to_string()),
    }
}

/// `Argon2::default().verify_password` on the parsed hash (`PasswordHash::new`
/// again, which succeeds on a readable hash). The outside code rehashes the
/// password with the algorithm, version, parameters and salt that the hash
/// itself carries and compares the outputs; the verdict is a function of the
/// two strings alone, and is trusted to be the named `password_accepted`.
#[verifier::external_body]
fn verify_password(password: &str, hash: &str) -> (r: bool)
    requires
        hash_is_readable(hash@),
    ensures
        r == password_accepted(password@, hash@),
{
    match argon2::PasswordHash::new(hash) {
        Ok(h) => argon2::Argon2::default().verify_password(password.as_bytes(), &h).is_ok(),
        Err(_) => false,
    }
}

/// `hash` is a password hash that is read back and admits `password`.
pub open spec fn admits(hash: Seq<char>, password: Seq<char>) -> bool {
    hash_is_readable(hash) && password_accepted(password, hash)
}

/// Name for whether `Salt::from_b64` reads `salt` and the bytes it encodes
/// are a salt that Argon2 hashes with (at least eight of them).
pub uninterp spec fn salt_accepted(salt: Seq<char>) -> bool;

/// `SaltString::generate` on the operating system's generator, as text.
/// The salt is random; trusted only to be accepted: it is the B64 encoding
/// of sixteen random bytes.
#[verifier::external_body]
fn fresh_salt() -> (r: String)
    ensures
        salt_accepted(r@),
{
    argon2::password_hash::SaltString::generate(&mut rand::rngs::OsRng).as_str().to_owned()
}

/// `Argon2::default().hash_password` of `password` with the B64 salt `salt`,
/// written out as a PHC string.  Trusted: the string it gives is read back by
/// `PasswordHash::new`, and Argon2 verification, which rehashes with the
/// algorithm, version, parameters and salt that the string carries, accepts
/// `password` against it.  On a salt it cannot use, or a password too long to
/// hash, the outside error's text: with an accepted salt and a password of at
/// most 2^30 - 1 characters (so at most 2^32 - 1 bytes) it succeeds.
#[verifier::external_body]
fn hash_with_salt(password: &str, salt: &str) -> (r: Result<String, String>)
    ensures
        r matches Ok(h) ==> admits(h@, password@),
        salt_accepted(salt@) && password@.len() <= 0x3fff_ffff ==> r is Ok,
{
    match argon2::password_hash::Salt::from_b64(salt) {
        Err(e) => Err(e.to_string()),
        Ok(s) => match argon2::Argon2::default().hash_password(password.as_bytes(), s) {
            Ok(h) => Ok(h.to_string()),
            Err(e) => Err(e.to_string()),
        },
    }
}

/// The stored hash of a new account's password, under a fresh random salt.
/// Hashing succeeds for every password of fewer than 2^30 characters, and
/// the hash admits the password; a failure is the server's.
pub fn hash_new_password(password: &str) -> (r: Result<String, AuthError>)
    ensures
        r matches Ok(h) ==> admits(h@, password@),
        r matches Err(e) ==> e is Internal,
        password@.len() <= 0x3fff_ffff ==> r is Ok,
{
    let salt = fresh_salt();
    match hash_with_salt(password, salt.as_str()) {
        Ok(h) => Ok(h),
        Err(msg) => Err(AuthError::Internal(msg)),
    }
}

/// How a login is decided.
pub enum LoginVerdict {
    /// The stored hash admits the password.
    Admitted,
    /// No such player, or the password is wrong.
    Refused,
    /// The stored hash cannot be read.
    Unreadable,
}

/// The verdict on a login with `password` against the stored `player`.
pub open spec fn login_verdict(player: Option<Player>, password: Seq<char>) -> LoginVerdict {
    match player {
        None => LoginVerdict::Refused,
        Some(p) => if !hash_is_readable(p.password_hash@) {
            LoginVerdict::Unreadable
        } else if password_accepted(password, p.password_hash@) {
            LoginVerdict::Admitted
        } else {
            LoginVerdict::Refused
        },
    }
}

/// A player stored with a hash that `hash_new_password` made of a password
/// is let in with that password.
pub proof fn law_new_password_logs_in(player: Player, password: Seq<char>)
    requires
        admits(player.password_hash@, password),
    ensures
        login_verdict(Some(player), password) == LoginVerdict::Admitted,
{
}

/// Decides a login against the stored player of that name, if any: unknown
/// players and wrong passwords are refused alike; a stored hash that cannot
/// be read is the server's failure.  On success, the player.
pub fn check_login<'a>(player: Option<&'a Player>, password: &str) -> (r: Result<&'a Player, AuthError>)
    ensures
        match login_verdict(
            match player {
                Some(p) => Some(*p),
                None => None,
            },
            password@,
        ) {
            LoginVerdict::Admitted => r matches Ok(q) && player == Some(q),
            LoginVerdict::Refused => r matches Err(AuthError::InvalidCredentials),
            LoginVerdict::Unreadable => r matches Err(AuthError::Internal(_)),
        },
{
    let p = match player {
        None => {
            return Err(AuthError::InvalidCredentials);
        },
        Some(p) => p,
    };
    match read_hash(p.password_hash.as_str()) {
        Err(msg) => Err(AuthError::Internal(msg)),
        Ok(()) => {
            if verify_password(password, p.password_hash.as_str()) {
                Ok(p)
            } else {
                Err(AuthError::InvalidCredentials)
            }
        },
    }
}

/// An instant that chrono represents with a day to spare: within 8·10¹²
/// seconds (about 250 000 years) of the Unix epoch, with less than a second
/// of nanoseconds.  chrono's dates run from the year −262 143 to 262 142.
pub open spec fn within_calendar(t: Timestamp) -> bool {
    &&& -8_000_000_000_000 <= t.secs <= 8_000_000_000_000
    &&& t.nanos < 1_000_000_000
}

/// The instant `secs` seconds after `now`, in whole seconds
/// (`DateTime::from_timestamp`, `checked_add_signed` with `secs` seconds,
/// then `timestamp`).  Trusted: when there is one, it is `secs` seconds after
/// `now`; there is one for every instant within the calendar and at most a
/// day later (chrono gives `None` only for seconds outside its range of
/// dates or nanoseconds of a second or more outside a leap second).
#[verifier::external_body]
fn later_by(now: Timestamp, secs: i64) -> (r: Option<i64>)
    requires
        0 <= secs <= 1_000_000_000_000,
    ensures
        r matches Some(t) ==> t == now.secs + secs,
        within_calendar(now) && secs <= 86400 ==> r is Some,
{
    match chrono::DateTime::from_timestamp(now.secs, now.nanos) {
        Some(d) => d.checked_add_signed(chrono::Duration::seconds(secs)).map(|x| x.timestamp()),
        None => None,
    }
}

/// How long a session token is valid: one day, in seconds.
pub const SESSION_SECS: i64 = 86400;

/// The claims of a session token for `player_id` and `username`, expiring
/// a day after `now`.  Every instant within the calendar has them; outside
/// it the failure is the server's.
pub fn claims_at(player_id: u128, username: &str, now: Timestamp) -> (r: Result<Claims, AuthError>)
    ensures
        r matches Ok(c) ==> c.sub == player_id && c.username@ == username@ && c.exp
            == (now.secs + 86400) as usize,
        within_calendar(now) ==> r is Ok,
        r matches Err(e) ==> e is Internal,
{
    match later_by(now, SESSION_SECS) {
        Some(t) => Ok(
            Claims {
                sub: player_id,
                username: username.to_owned(),
                exp: #[verifier::truncate] (t as usize),
            },
        ),
        None => {
            let msg = "timestamp out of range".to_owned();
            Err(AuthError::Internal(msg))
        },
    }
}

/// The claims of a session token issued now.  Nothing is stated of the
/// expiry, nor of whether the clock reads an instant that the calendar can
/// take a day past: both depend on the clock.  A failure is the server's.
pub fn session_claims(player_id: u128, username: &str) -> (r: Result<Claims, AuthError>)
    ensures
        r matches Ok(c) ==> c.sub == player_id && c.username@ == username@,
        r matches Err(e) ==> e is Internal,
{
    claims_at(player_id, username, current_time())
}

} // verus!
