//! The answer to a login request: check the password against the stored
//! hash, and on success hand out a fresh session key and the user's
//! redirect address.

use vstd::prelude::*;
use crate::models::User;

verus! {

#[verifier::external_type_specification]
#[verifier::external_body]
pub struct ExBcryptError(bcrypt::BcryptError);

pub assume_specification<T>[ rand::random::<T> ]() -> (r: T)
    where
        rand::distributions::Standard: rand::distributions::Distribution<T>,
;

/// What bcrypt's check says of a password against a stored hash: whether
/// they match, or `None` when the hash is malformed.
pub uninterp spec fn bcrypt_verdict(password: Seq<char>, hash: Seq<char>) -> Option<bool>;

/// Relies on bcrypt::verify: re-hashes the password with the cost and salt
/// that the stored hash records and compares; the outcome depends on the
/// two strings alone.
#[verifier::external_body]
fn bcrypt_verify(password: &str, hash: &str) -> (r: Result<bool, bcrypt::BcryptError>)
    ensures
        r matches Ok(b) ==> bcrypt_verdict(password@, hash@) == Some(b),
        r is Err ==> bcrypt_verdict(password@, hash@) is None,
{
    bcrypt::verify(password, hash)
}

/// Relies on String::push: appends one character.
#[verifier::external_body]
fn push_char(s: &mut String, c: char)
    ensures
        final(s)@ == old(s)@.push(c),
{
    s.push(c)
}

/// The lower-case hexadecimal digit for `d`.
pub open spec fn hex_digit(d: nat) -> char {
    if d < 10 {
        (48 + d) as char
    } else {
        (87 + d) as char
    }
}

/// The last `count` hexadecimal digits of `n`, most significant first,
/// padded with zeros.
pub open spec fn hex_digits(n: nat, count: nat) -> Seq<char>
    decreases count,
{
    if count == 0 {
        Seq::empty()
    } else {
        hex_digits(n / 16, (count - 1) as nat).push(hex_digit(n % 16))
    }
}

/// The text of a session key: its 32 hexadecimal digits.
pub open spec fn session_key_text(key: u128) -> Seq<char> {
    hex_digits(key as nat, 32)
}

fn push_hex(out: &mut String, n: u128, count: usize)
    ensures
        final(out)@ == old(out)@ + hex_digits(n as nat, count as nat),
    decreases count,
{
    if count == 0 {
        assert(old(out)@ + Seq::<char>::empty() =~= old(out)@);
        return;
    }
    push_hex(out, n / 16, count - 1);
    let d = (n % 16) as u32;
    let c = if d < 10 {
        (48 + d) as u8 as char
    } else {
        (87 + d) as u8 as char
    };
    push_char(out, c);
    assert(final(out)@ =~= old(out)@ + hex_digits(n as nat, count as nat));
}

/// Formats a session key as 32 lower-case hexadecimal digits.
pub fn format_session_key(key: u128) -> (r: String)
    ensures
        r@ == session_key_text(key),
{
    let mut s = String::new();
    push_hex(&mut s, key, 32);
    assert(s@ =~= session_key_text(key));
    s
}

/// The answer sent to a login request.
pub enum LoginResponse {
    /// The username is unknown or the password does not match.
    InvalidUsernamePassword,
    /// Logged in: the new session key and where the client goes next.
    Granted { session_key: String, redirect_host: String, redirect_port: u16 },
}

/// Why a login could not be decided.
#[derive(Clone, Copy, Debug, PartialEq, Eq, Structural)]
pub enum LoginError {
    /// The stored password hash is malformed.
    BadStoredHash,
}

/// The successful answer for `user` with the session key `key`.
pub fn grant(user: &User, key: u128) -> (r: LoginResponse)
    ensures
        r matches LoginResponse::Granted { session_key, redirect_host, redirect_port } && session_key@
            == session_key_text(key) && redirect_host@ == user.redirect_host@ && redirect_port
            == user.redirect_port as u16,
{
    LoginResponse::Granted {
        session_key: format_session_key(key),
        redirect_host: user.redirect_host.clone(),
        redirect_port: user.redirect_port as u16,
    }
}

/// Decides a login request for the user found under its username (`None`
/// when there is none): a fresh random session key for a matching
/// password, a rejection otherwise.
pub fn login_response(password: &str, user: Option<&User>) -> (r: Result<LoginResponse, LoginError>)
    ensures
        user is None ==> r matches Ok(LoginResponse::InvalidUsernamePassword),
        user matches Some(u) ==> match bcrypt_verdict(password@, u.password@) {
            None => r == Err::<LoginResponse, LoginError>(LoginError::BadStoredHash),
            Some(false) => r matches Ok(LoginResponse::InvalidUsernamePassword),
            Some(true) => r matches Ok(LoginResponse::Granted { session_key, redirect_host, redirect_port })
                && (exists|k: u128| session_key@ == session_key_text(k)) && redirect_host@
                == u.redirect_host@ && redirect_port == u.redirect_port as u16,
        },
{
    let u = match user {
        None => {
            return Ok(LoginResponse::InvalidUsernamePassword);
        },
        Some(u) => u,
    };
    match bcrypt_verify(password, u.password.as_str()) {
        Err(_) => Err(LoginError::BadStoredHash),
        Ok(false) => Ok(LoginResponse::InvalidUsernamePassword),
        Ok(true) => {
            let key: u128 = rand::random();
            Ok(grant(u, key))
        },
    }
}

} // verus!
