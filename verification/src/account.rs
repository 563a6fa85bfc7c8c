//! Account identifiers, credential rules and the bridge to password hashing.

use vstd::prelude::*;
use vstd::string::{StrSliceExecFns, StringSliceAdditionalSpecFns};
use argon2::password_hash::rand_core::OsRng;
use argon2::password_hash::{PasswordHash, PasswordHasher, PasswordVerifier, SaltString};
use argon2::Argon2;

verus! {

/// Internal identifier of an account (a signed database row id).
#[derive(Debug, Clone, Copy, PartialEq, Eq, Structural, PartialOrd, Ord, Hash)]
pub struct AccountId(i64);

impl View for AccountId {
    type V = i64;

    closed spec fn view(&self) -> i64 {
        self.0
    }
}

/// The unsigned number carrying the same 64 bits as `v`.
pub open spec fn unsigned_bits(v: int) -> int {
    if v < 0 { v + 0x1_0000_0000_0000_0000 } else { v }
}

/// The signed number carrying the same 64 bits as `u`.
pub open spec fn signed_bits(u: int) -> int {
    if u >= 0x8000_0000_0000_0000 { u - 0x1_0000_0000_0000_0000 } else { u }
}

impl AccountId {
    pub fn new(value: i64) -> (r: Self)
        ensures
            r@ == value,
    {
        Self(value)
    }

    pub fn get(self) -> (r: i64)
        ensures
            r == self@,
    {
        self.0
    }

    /// Unsigned view of the same bits, for network frames.
    pub fn as_u64(self) -> (r: u64)
        ensures
            r == unsigned_bits(self@ as int),
    {
        if self.0 >= 0 {
            self.0 as u64
        } else {
            (self.0 - i64::MIN) as u64 + 0x8000_0000_0000_0000u64
        }
    }

    /// Inverse of [`AccountId::as_u64`].
    pub fn from_u64(value: u64) -> (r: Self)
        ensures
            r@ == signed_bits(value as int),
    {
        if value < 0x8000_0000_0000_0000u64 {
            Self(value as i64)
        } else {
            Self((value - 0x8000_0000_0000_0000u64) as i64 + i64::MIN)
        }
    }
}

/// An account identifier crosses the network and comes back unchanged.
pub proof fn account_id_roundtrip(v: i64)
    ensures
        signed_bits(unsigned_bits(v as int)) == v,
        0 <= unsigned_bits(v as int) <= u64::MAX,
{
}

/// Every unsigned frame value comes from exactly one account identifier.
pub proof fn frame_value_roundtrip(u: u64)
    ensures
        unsigned_bits(signed_bits(u as int)) == u,
        i64::MIN <= signed_bits(u as int) <= i64::MAX,
{
}

/// Bounds accepted for an account name.
pub const MIN_USERNAME_LEN: usize = 3;
pub const MAX_USERNAME_LEN: usize = 32;

/// Minimum length of a password; length is the only requirement.
pub const MIN_PASSWORD_LEN: usize = 10;

/// Maximum length of a password, to bound the cost of hashing.
pub const MAX_PASSWORD_LEN: usize = 128;

/// Why credentials are refused.
#[derive(Debug, Clone, Copy, PartialEq, Eq, Structural)]
pub enum CredentialError {
    UsernameTooShort,
    UsernameTooLong,
    UsernameHasInvalidCharacters,
    PasswordTooShort,
    PasswordTooLong,
}

/// Human-readable reason of a refusal.
pub open spec fn credential_text(e: CredentialError) -> Seq<char> {
    match e {
        CredentialError::UsernameTooShort => "nom trop court"@,
        CredentialError::UsernameTooLong => "nom trop long"@,
        CredentialError::UsernameHasInvalidCharacters => "le nom contient des caracteres interdits"@,
        CredentialError::PasswordTooShort => "mot de passe trop court"@,
        CredentialError::PasswordTooLong => "mot de passe trop long"@,
    }
}

impl CredentialError {
    /// Human-readable reason.
    pub fn message(self) -> (r: &'static str)
        ensures
            r@ == credential_text(self),
    {
        match self {
            CredentialError::UsernameTooShort => "nom trop court",
            CredentialError::UsernameTooLong => "nom trop long",
            CredentialError::UsernameHasInvalidCharacters => "le nom contient des caracteres interdits",
            CredentialError::PasswordTooShort => "mot de passe trop court",
            CredentialError::PasswordTooLong => "mot de passe trop long",
        }
    }
}

/// A character allowed in an account name: ASCII letter, digit, dash or
/// underscore.
pub open spec fn name_char(c: char) -> bool {
    ||| ('a' <= c && c <= 'z')
    ||| ('A' <= c && c <= 'Z')
    ||| ('0' <= c && c <= '9')
    ||| c == '-'
    ||| c == '_'
}

/// The verdict on credentials: the length bounds are on bytes (the length of
/// the UTF-8 text), the allowed characters on the characters of the name.
pub open spec fn credential_verdict(name_len: int, name: Seq<char>, password_len: int) -> Result<(), CredentialError> {
    if name_len < MIN_USERNAME_LEN {
        Err(CredentialError::UsernameTooShort)
    } else if name_len > MAX_USERNAME_LEN {
        Err(CredentialError::UsernameTooLong)
    } else if !(forall|i: int| 0 <= i < name.len() ==> name_char(#[trigger] name[i])) {
        Err(CredentialError::UsernameHasInvalidCharacters)
    } else if password_len < MIN_PASSWORD_LEN {
        Err(CredentialError::PasswordTooShort)
    } else if password_len > MAX_PASSWORD_LEN {
        Err(CredentialError::PasswordTooLong)
    } else {
        Ok(())
    }
}

fn is_name_char(c: char) -> (r: bool)
    ensures
        r == name_char(c),
{
    (c >= 'a' && c <= 'z') || (c >= 'A' && c <= 'Z') || (c >= '0' && c <= '9') || c == '-' || c == '_'
}

/// Checks credentials before any expensive work.
pub fn validate_credentials(username: &str, password: &str) -> (r: Result<(), CredentialError>)
    ensures
        r == credential_verdict(username.spec_bytes().len() as int, username@, password.spec_bytes().len() as int),
{
    let name_len = username.as_bytes().len();
    if name_len < MIN_USERNAME_LEN {
        return Err(CredentialError::UsernameTooShort);
    }
    if name_len > MAX_USERNAME_LEN {
        return Err(CredentialError::UsernameTooLong);
    }
    let chars = username.unicode_len();
    let mut i: usize = 0;
    while i < chars
        invariant
            chars == username@.len(),
            name_len == username.spec_bytes().len(),
            MIN_USERNAME_LEN <= name_len <= MAX_USERNAME_LEN,
            i <= chars,
            forall|j: int| 0 <= j < i ==> name_char(#[trigger] username@[j]),
        decreases chars - i,
    {
        let c = username.get_char(i);
        if !is_name_char(c) {
            assert(!name_char(username@[i as int]));
            return Err(CredentialError::UsernameHasInvalidCharacters);
        }
        i = i + 1;
    }
    let password_len = password.as_bytes().len();
    if password_len < MIN_PASSWORD_LEN {
        return Err(CredentialError::PasswordTooShort);
    }
    if password_len > MAX_PASSWORD_LEN {
        return Err(CredentialError::PasswordTooLong);
    }
    Ok(())
}

/// Error of the `password-hash` crate, as returned by Argon2.
#[verifier::external_type_specification]
#[verifier::external_body]
pub struct ExPasswordHashError(argon2::password_hash::Error);

/// Whether Argon2 accepts `password` against the stored PHC string `stored`.
pub uninterp spec fn argon2_accepts(password: Seq<char>, stored: Seq<char>) -> bool;

/// Hashes a password with a fresh random salt: `SaltString::generate(&mut OsRng)`
/// then `Argon2::default().hash_password`, rendered as a PHC string. The
/// rendering starts with the separator and the identifier of the default
/// algorithm, `$argon2id$`, and the string carries the salt and parameters
/// from which `verify_password` recomputes the hash: it is accepted for the
/// password it was made from. The salt is random, so nothing more is claimed
/// of its text. Drawing the salt panics if the operating system's random
/// source fails, which no argument can rule out.
#[verifier::external_body]
pub(crate) fn hash_password(password: &str) -> (r: Result<String, argon2::password_hash::Error>)
    ensures
        r matches Ok(h) ==> "$argon2id$"@.is_prefix_of(h@),
        r matches Ok(h) ==> argon2_accepts(password@, h@),
{
    let salt = SaltString::generate(&mut OsRng);
    match Argon2::default().hash_password(password.as_bytes(), &salt) {
        Ok(hash) => Ok(hash.to_string()),
        Err(e) => Err(e),
    }
}

/// Verifies a password against a stored hash: `PasswordHash::new(stored)` then
/// `Argon2::default().verify_password`. The verdict is named by
/// [`argon2_accepts`]; a stored string that is empty, or does not start with
/// the `$` separator, never parses, so it never accepts anything.
#[verifier::external_body]
pub(crate) fn verify_password(password: &str, stored: &str) -> (r: bool)
    ensures
        r == argon2_accepts(password@, stored@),
        stored@.len() == 0 ==> !r,
        stored@.len() > 0 && stored@[0] != '$' ==> !r,
{
    match PasswordHash::new(stored) {
        Ok(parsed) => Argon2::default().verify_password(password.as_bytes(), &parsed).is_ok(),
        Err(_) => false,
    }
}

} // verus!
