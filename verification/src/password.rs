//! Password hashing with Argon2: salts, PHC hash strings and their checks.
use argon2::password_hash::rand_core::OsRng;
use argon2::password_hash::{PasswordHash, SaltString};
use argon2::{Argon2, PasswordHasher, PasswordVerifier};
use vstd::prelude::*;

verus! {

/// A password hash in PHC string form (as bytes) with the salt it was made with.
#[derive(Debug, Clone)]
pub struct HashedPassword {
    pub hashed_password: Vec<u8>,
    pub salt: Vec<u8>,
}

/// Why a password could not be hashed or checked.
#[derive(Debug, Clone, Copy, PartialEq, Eq)]
pub enum PasswordError {
    /// The salt is not a valid B64 salt string, or hashing failed.
    HashFailed,
    /// The stored hash is not a valid PHC string.
    InvalidHash,
}

/// A byte of the B64 alphabet that salts are written in: `a-z`, `A-Z`,
/// `0-9`, `/` and `+`.
pub open spec fn is_b64_byte(b: u8) -> bool {
    (97 <= b <= 122) || (65 <= b <= 90) || (48 <= b <= 57) || b == 47 || b == 43
}

/// The PHC string that Argon2 (default parameters) makes of `password` with
/// the salt `salt`, or `None` when the salt is refused.
pub uninterp spec fn argon2_phc(password: Seq<u8>, salt: Seq<u8>) -> Option<Seq<u8>>;

/// Whether `password` matches the PHC string `phc` under Argon2, or `None`
/// when `phc` is not a PHC string.
pub uninterp spec fn argon2_matches(password: Seq<u8>, phc: Seq<u8>) -> Option<bool>;

/// Argon2 (default parameters) hashes every password that fits its length
/// limit of `u32::MAX` bytes with the salt `salt`.
pub open spec fn salt_accepted(salt: Seq<u8>) -> bool {
    forall|p: Seq<u8>| p.len() <= 0xFFFF_FFFF ==> (#[trigger] argon2_phc(p, salt)) is Some
}

/// Draws a salt with `SaltString::generate(&mut OsRng)` of `password_hash`;
/// claimed: 16 random bytes in canonical unpadded B64, i.e. 22 bytes of the
/// B64 alphabet, which `SaltString::from_b64` (4 to 64 such characters)
/// accepts and which decodes to 16 bytes, so that Argon2 with default
/// parameters hashes any password of at most `u32::MAX` bytes with it. The
/// bytes themselves come from the operating system.
#[verifier::external_body]
fn random_salt() -> (s: Vec<u8>)
    ensures
        s@.len() == 22,
        forall|k: int| 0 <= k < s@.len() ==> is_b64_byte(#[trigger] s@[k]),
        salt_accepted(s@),
{
    SaltString::generate(&mut OsRng).as_str().as_bytes().to_vec()
}

/// Hashes with `Argon2::default().hash_password` after reading the salt with
/// `SaltString::from_b64`; claimed: the result is the named PHC string of
/// the password and salt, and checking the same password against it succeeds.
#[verifier::external_body]
fn argon2_hash(password: &Vec<u8>, salt: &Vec<u8>) -> (r: Option<Vec<u8>>)
    ensures
        match r {
            Some(h) => argon2_phc(password@, salt@) == Some(h@) && argon2_matches(password@, h@) == Some(
                true,
            ),
            None => argon2_phc(password@, salt@) is None,
        },
{
    let salt = match std::str::from_utf8(salt) {
        Ok(s) => s,
        Err(_) => return None,
    };
    let salt = match SaltString::from_b64(salt) {
        Ok(s) => s,
        Err(_) => return None,
    };
    match Argon2::default().hash_password(password, &salt) {
        Ok(h) => Some(h.to_string().into_bytes()),
        Err(_) => None,
    }
}

/// Checks a password with `PasswordHash::new` and
/// `Argon2::default().verify_password`; claimed: the result is the named
/// outcome for the password and the stored PHC string.
#[verifier::external_body]
fn argon2_verify(password: &Vec<u8>, phc: &Vec<u8>) -> (r: Option<bool>)
    ensures
        r == argon2_matches(password@, phc@),
{
    let text = match std::str::from_utf8(phc) {
        Ok(s) => s,
        Err(_) => return None,
    };
    match PasswordHash::new(text) {
        Ok(h) => Some(Argon2::default().verify_password(password, &h).is_ok()),
        Err(_) => None,
    }
}

/// Salt generator backed by the operating system's random source.
pub struct Argon2PasswordSaltGenerator;

/// Argon2 password hasher.
pub struct Argon2PasswordHasher;

/// The password service built from a salt generator and a hasher.
pub struct PasswordServiceImpl<G, H> {
    pub salt_generator: G,
    pub hasher: H,
}

impl Argon2PasswordSaltGenerator {
    /// A fresh random salt: 22 bytes of the B64 alphabet.
    pub fn generate() -> (s: Vec<u8>)
        ensures
            s@.len() == 22,
            forall|k: int| 0 <= k < s@.len() ==> is_b64_byte(#[trigger] s@[k]),
            salt_accepted(s@),
    {
        random_salt()
    }
}

impl Argon2PasswordHasher {
    /// Hashes a password with a salt; fails when the salt is refused.
    pub fn hash(raw_password: &Vec<u8>, salt: Vec<u8>) -> (r: Result<HashedPassword, PasswordError>)
        ensures
            match r {
                Ok(h) => argon2_phc(raw_password@, salt@) == Some(h.hashed_password@) && h.salt@ == salt@,
                Err(e) => argon2_phc(raw_password@, salt@) is None && e == PasswordError::HashFailed,
            },
            r matches Ok(h) ==> argon2_matches(raw_password@, h.hashed_password@) == Some(true),
    {
        match argon2_hash(raw_password, &salt) {
            Some(h) => Ok(HashedPassword { hashed_password: h, salt }),
            None => Err(PasswordError::HashFailed),
        }
    }

    /// Whether the password matches the stored hash; fails when the stored
    /// hash is not a PHC string.
    pub fn verify(raw_password: &Vec<u8>, hashed_password: &HashedPassword) -> (r: Result<bool, PasswordError>)
        ensures
            match argon2_matches(raw_password@, hashed_password.hashed_password@) {
                Some(b) => r == Ok::<bool, PasswordError>(b),
                None => r == Err::<bool, _>(PasswordError::InvalidHash),
            },
    {
        match argon2_verify(raw_password, &hashed_password.hashed_password) {
            Some(b) => Ok(b),
            None => Err(PasswordError::InvalidHash),
        }
    }
}

impl PasswordServiceImpl<Argon2PasswordSaltGenerator, Argon2PasswordHasher> {
    /// A fresh random salt.
    pub fn generate_salt() -> (s: Vec<u8>)
        ensures
            s@.len() == 22,
            forall|k: int| 0 <= k < s@.len() ==> is_b64_byte(#[trigger] s@[k]),
            salt_accepted(s@),
    {
        Argon2PasswordSaltGenerator::generate()
    }

    /// Hashes a password with a salt.
    pub fn hash_password(raw_password: &Vec<u8>, salt: Vec<u8>) -> (r: Result<HashedPassword, PasswordError>)
        ensures
            match r {
                Ok(h) => argon2_phc(raw_password@, salt@) == Some(h.hashed_password@) && h.salt@ == salt@,
                Err(e) => argon2_phc(raw_password@, salt@) is None && e == PasswordError::HashFailed,
            },
            r matches Ok(h) ==> argon2_matches(raw_password@, h.hashed_password@) == Some(true),
    {
        Argon2PasswordHasher::hash(raw_password, salt)
    }

    /// Whether the password matches the stored hash.
    pub fn verify(raw_password: &Vec<u8>, hashed_password: &HashedPassword) -> (r: Result<bool, PasswordError>)
        ensures
            match argon2_matches(raw_password@, hashed_password.hashed_password@) {
                Some(b) => r == Ok::<bool, PasswordError>(b),
                None => r == Err::<bool, _>(PasswordError::InvalidHash),
            },
    {
        Argon2PasswordHasher::verify(raw_password, hashed_password)
    }
}

} // verus!
