//! What persistence needs from the rules: the saved form of a character, the
//! checks done before writing an account, and the verdict of a login.

use vstd::prelude::*;
use crate::account::{
    AccountId, CredentialError, argon2_accepts, credential_text, credential_verdict, hash_password,
    validate_credentials, verify_password,
};
use crate::character::{Attributes, Character, CharacterId, CharacterView, character_valid, max_health_of};
use crate::experience::{Experience, ProgressionCurve, requirement};
use crate::level::{Level, level_in_range};
use crate::position::Position;
use vstd::string::{StringExecFns, StringSliceAdditionalSpecFns, to_string_from_display_ensures};

verus! {

/// Error of the SQLite binding.
#[verifier::external_type_specification]
#[verifier::external_body]
pub struct ExDatabaseError(rusqlite::Error);

/// What can go wrong when talking to storage.
#[derive(Debug)]
pub enum StorageError {
    /// Name already taken.
    UsernameTaken,
    /// Wrong credentials or unknown account; deliberately the same answer.
    InvalidCredentials,
    /// Name or password outside the accepted bounds.
    Credentials(CredentialError),
    /// The database refused the operation.
    Database(rusqlite::Error),
    /// Hashing failed.
    Hashing(argon2::password_hash::Error),
    /// A saved row describes an impossible character.
    CorruptCharacter,
}

/// `head` followed by `tail`.
fn joined(head: &str, tail: &str) -> (r: String)
    ensures
        r@ == head@ + tail@,
{
    let mut out = head.to_owned();
    out.append(tail);
    out
}

impl StorageError {
    /// Human-readable description; for a database or hashing failure, the
    /// outside error's own text (its `to_string`) follows the prefix.
    pub fn message(&self) -> (r: String)
        ensures
            match self {
                StorageError::UsernameTaken => r@ == "nom deja pris"@,
                StorageError::InvalidCredentials => r@ == "identifiants incorrects"@,
                StorageError::Credentials(e) => r@ == "identifiants invalides : "@ + credential_text(*e),
                StorageError::Database(e) => exists|t: String|
                    #[trigger] to_string_from_display_ensures::<rusqlite::Error>(e, t) && r@ == "base de donnees : "@ + t@,
                StorageError::Hashing(e) => exists|t: String|
                    #[trigger] to_string_from_display_ensures::<argon2::password_hash::Error>(e, t) && r@ == "hachage : "@ + t@,
                StorageError::CorruptCharacter => r@ == "personnage sauvegarde incoherent"@,
            },
    {
        match self {
            StorageError::UsernameTaken => "nom deja pris".to_owned(),
            StorageError::InvalidCredentials => "identifiants incorrects".to_owned(),
            StorageError::Credentials(e) => joined("identifiants invalides : ", e.message()),
            StorageError::Database(e) => {
                let text = e.to_string();
                joined("base de donnees : ", text.as_str())
            },
            StorageError::Hashing(e) => {
                let text = e.to_string();
                joined("hachage : ", text.as_str())
            },
            StorageError::CorruptCharacter => "personnage sauvegarde incoherent".to_owned(),
        }
    }
}

/// State of a character as it goes through persistence, position included.
#[derive(Debug, Clone, Copy, PartialEq, Eq, Structural)]
pub struct SavedCharacter {
    pub level: u8,
    pub experience: u64,
    pub attributes: Attributes,
    pub current_health: u32,
    pub position: Position,
}

/// The saved form of a character standing at `position`.
pub open spec fn saved_form(c: CharacterView, position: Position) -> SavedCharacter {
    SavedCharacter {
        level: c.level,
        experience: c.experience,
        attributes: c.attributes,
        current_health: c.health,
        position,
    }
}

/// Whether a saved row describes a playable character on a curve of
/// parameter `base`: level in range, health under the ceiling, experience
/// under the threshold of its level.
pub open spec fn restorable(s: SavedCharacter, base: int) -> bool {
    &&& level_in_range(s.level as int)
    &&& s.current_health <= max_health_of(s.attributes.vitality as int, s.level as int)
    &&& s.experience < requirement(base, s.level as int)
}

impl SavedCharacter {
    /// Captures the state of a character in play.
    pub fn of(character: &Character, position: Position) -> (r: Self)
        ensures
            r == saved_form(character@, position),
    {
        Self {
            level: character.level().get(),
            experience: character.experience().get(),
            attributes: character.attributes(),
            current_health: character.vitals().current(),
            position,
        }
    }

    /// Rebuilds a playable character, or refuses a row that breaks the
    /// character invariants.
    pub fn into_character(self, id: CharacterId, curve: ProgressionCurve) -> (r: Result<Character, StorageError>)
        ensures
            r is Ok <==> restorable(self, curve.base() as int),
            !restorable(self, curve.base() as int) ==> r matches Err(StorageError::CorruptCharacter),
            r matches Ok(c) ==> c@ == (CharacterView {
                id: id@,
                level: self.level,
                experience: self.experience,
                attributes: self.attributes,
                health: self.current_health,
                max_health: max_health_of(self.attributes.vitality as int, self.level as int) as u32,
                curve_base: curve.base(),
            }),
    {
        let level = match Level::new(self.level) {
            Some(l) => l,
            None => return Err(StorageError::CorruptCharacter),
        };
        match Character::restore(
            id,
            level,
            Experience::new(self.experience),
            self.attributes,
            self.current_health,
            curve,
        ) {
            Some(c) => Ok(c),
            None => Err(StorageError::CorruptCharacter),
        }
    }
}

/// Saving a character and loading it back gives the same character.
pub proof fn save_then_restore(c: CharacterView, position: Position)
    requires
        character_valid(c),
    ensures
        restorable(saved_form(c, position), c.curve_base as int),
        ({
            let s = saved_form(c, position);
            (CharacterView {
                id: c.id,
                level: s.level,
                experience: s.experience,
                attributes: s.attributes,
                health: s.current_health,
                max_health: max_health_of(s.attributes.vitality as int, s.level as int) as u32,
                curve_base: c.curve_base,
            }) == c
        }),
        saved_form(c, position).position == position,
{
}


/// Outcome of an account insertion that ignores duplicates: no row written
/// means the name was taken (inserting and checking in one statement leaves
/// no window for two simultaneous registrations to both pass the check).
pub fn registration_outcome(affected: usize, rowid: i64) -> (r: Result<AccountId, StorageError>)
    ensures
        affected == 0 ==> r matches Err(StorageError::UsernameTaken),
        affected != 0 ==> (r matches Ok(a) && a@ == rowid),
{
    if affected == 0 {
        Err(StorageError::UsernameTaken)
    } else {
        Ok(AccountId::new(rowid))
    }
}

/// Experience as stored in a signed column: values past `i64::MAX` are
/// capped (the progression curve stays far below).
pub fn experience_to_column(experience: u64) -> (r: i64)
    ensures
        r == (if experience > i64::MAX { i64::MAX as int } else { experience as int }),
{
    if experience > i64::MAX as u64 {
        i64::MAX
    } else {
        experience as i64
    }
}

/// Experience read back from a signed column; a negative value reads as zero.
pub fn experience_from_column(stored: i64) -> (r: u64)
    ensures
        r == (if stored < 0 { 0 } else { stored as int }),
{
    if stored < 0 {
        0
    } else {
        stored as u64
    }
}

/// Checks made before writing an account: the credentials, then the hash
/// of the password with a fresh salt.
pub fn prepare_registration(username: &str, password: &str) -> (r: Result<String, StorageError>)
    ensures
        credential_verdict(username.spec_bytes().len() as int, username@, password.spec_bytes().len() as int) matches Err(e)
            ==> r matches Err(StorageError::Credentials(f)) && f == e,
        credential_verdict(username.spec_bytes().len() as int, username@, password.spec_bytes().len() as int) is Ok
            ==> r is Ok || r matches Err(StorageError::Hashing(_)),
        r matches Ok(h) ==> "$argon2id$"@.is_prefix_of(h@),
        r matches Ok(h) ==> argon2_accepts(password@, h@),
{
    match validate_credentials(username, password) {
        Ok(()) => {},
        Err(e) => return Err(StorageError::Credentials(e)),
    }
    match hash_password(password) {
        Ok(hash) => Ok(hash),
        Err(e) => Err(StorageError::Hashing(e)),
    }
}

/// Reference hash used when an account does not exist; a fallback string
/// that never verifies if hashing fails. Either way it starts as an Argon2id
/// PHC string; when hashing succeeds, checking a password against it costs a
/// real verification.
pub fn dummy_hash() -> (r: String)
    ensures
        "$argon2id$"@.is_prefix_of(r@),
        r@ == "$argon2id$invalide"@ || argon2_accepts("mot-de-passe-inexistant"@, r@),
{
    match hash_password("mot-de-passe-inexistant") {
        Ok(hash) => hash,
        Err(_) => {
            proof {
                reveal_strlit("$argon2id$invalide");
                reveal_strlit("$argon2id$");
                assert("$argon2id$invalide"@.subrange(0, "$argon2id$"@.len() as int) =~= "$argon2id$"@);
            }
            "$argon2id$invalide".to_owned()
        },
    }
}

/// Spends the time of a real verification, against `dummy`, for an account
/// that does not exist; the verdict is thrown away.
pub fn verify_against_dummy(password: &str, dummy: &str) {
    let _ = verify_password(password, dummy);
}

/// The account a login opens, if any: the one found under the name, when
/// Argon2 accepts the password against its stored hash.
pub open spec fn login_answer(found: Option<(i64, Seq<char>)>, password: Seq<char>) -> Option<i64> {
    match found {
        Some((id, stored)) => if argon2_accepts(password, stored) { Some(id) } else { None },
        None => None,
    }
}

/// What a lookup found, with the stored hash as text.
pub open spec fn found_text(found: Option<(i64, &str)>) -> Option<(i64, Seq<char>)> {
    match found {
        Some((id, stored)) => Some((id, stored@)),
        None => None,
    }
}

/// A password registered through `prepare_registration` logs in: every hash
/// it returns is accepted for that password, so a login that finds the
/// account under its name answers that account.
pub proof fn registered_password_logs_in(id: i64, password: Seq<char>, hash: Seq<char>)
    requires
        argon2_accepts(password, hash),
    ensures
        login_answer(Some((id, hash)), password) == Some(id),
{
}

/// Verdict of a login, from the account found under the name (its id and
/// stored hash) if any. An unknown name and a wrong password get the same
/// answer, after the same amount of hashing work.
pub fn check_login(found: Option<(i64, &str)>, password: &str, dummy: &str) -> (r: Result<AccountId, StorageError>)
    ensures
        login_answer(found_text(found), password@) matches Some(id) ==> (r matches Ok(a) && a@ == id),
        login_answer(found_text(found), password@) is None ==> r matches Err(StorageError::InvalidCredentials),
        found matches Some((_, stored)) && (stored@.len() == 0 || stored@[0] != '$') ==> r matches Err(
            StorageError::InvalidCredentials,
        ),
{
    match found {
        None => {
            verify_against_dummy(password, dummy);
            Err(StorageError::InvalidCredentials)
        },
        Some((id, stored)) => if verify_password(password, stored) {
            Ok(AccountId::new(id))
        } else {
            Err(StorageError::InvalidCredentials)
        },
    }
}

} // verus!
