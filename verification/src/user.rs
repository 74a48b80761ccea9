//! Users: registration checks and password handling.
use std::sync::Arc;
use vstd::prelude::*;

use crate::domain::RepositoryError;
use crate::password::{argon2_matches, argon2_phc, HashedPassword, PasswordError, PasswordServiceImpl};
use crate::password::{Argon2PasswordHasher, Argon2PasswordSaltGenerator};

verus! {

/// Personal data of a user.
#[derive(Debug, Clone)]
pub struct UserInfo {
    pub name: String,
    pub phone: String,
    pub identity_card_id: String,
}

/// A user account.
#[derive(Debug, Clone)]
pub struct User {
    pub id: Option<u64>,
    pub username: String,
    pub hashed_password: HashedPassword,
    pub hashed_payment_password: Option<HashedPassword>,
    pub wrong_payment_password_tried: u32,
    pub user_info: UserInfo,
}

/// Errors of the user service.
#[derive(Debug, Clone, PartialEq, Eq)]
pub enum UserServiceError {
    InfrastructureError(RepositoryError),
    UserExists(String, String),
    InvalidPassword,
    NoSuchUser(u64),
    PasswordFailure(PasswordError),
    PaymentPasswordMaxAttemptsExceed(u32),
}

/// Decides on a registration from the lookups of the phone number and of the
/// identity card number: refused when either already belongs to a user (the
/// phone is checked first).
pub open spec fn register_check(
    phone: Seq<char>,
    identity_card_id: Seq<char>,
    by_phone: Result<bool, RepositoryError>,
    by_card: Result<bool, RepositoryError>,
) -> Result<(), (Seq<char>, Seq<char>)> {
    match by_phone {
        Ok(true) => Err((phone, Seq::empty())),
        _ => match by_card {
            Ok(true) => Err((Seq::empty(), identity_card_id)),
            _ => Ok(()),
        },
    }
}

/// The outcome of checking `password` against the user's stored hash.
pub open spec fn password_check(user: User, password: Seq<u8>) -> Result<(), UserServiceError> {
    match argon2_matches(password, user.hashed_password.hashed_password@) {
        Some(true) => Ok(()),
        Some(false) => Err(UserServiceError::InvalidPassword),
        None => Err(UserServiceError::PasswordFailure(PasswordError::InvalidHash)),
    }
}

/// The user service; the repository is reached by the caller.
pub struct UserServiceImpl<R> {
    pub repository: Arc<R>,
}

impl<R> UserServiceImpl<R> {
    /// A service over the user repository.
    pub fn new(repository: Arc<R>) -> (s: Self)
        ensures
            s.repository == repository,
    {
        Self { repository }
    }

    /// Decides on a registration, given whether the phone number and the
    /// identity card number already belong to a user (or the lookup error).
    pub fn check_register(
        &self,
        phone: &String,
        identity_card_id: &String,
        phone_taken: Result<bool, RepositoryError>,
        card_taken: Result<bool, RepositoryError>,
    ) -> (r: Result<(), UserServiceError>)
        ensures
            match phone_taken {
                Err(e) => r == Err::<(), _>(UserServiceError::InfrastructureError(e)),
                Ok(true) => r matches Err(UserServiceError::UserExists(p, c)) && p@ == phone@ && c@
                    == Seq::<char>::empty(),
                Ok(false) => match card_taken {
                    Err(e) => r == Err::<(), _>(UserServiceError::InfrastructureError(e)),
                    Ok(true) => r matches Err(UserServiceError::UserExists(p, c)) && p@
                        == Seq::<char>::empty() && c@ == identity_card_id@,
                    Ok(false) => r is Ok,
                },
            },
    {
        match phone_taken {
            Err(e) => return Err(UserServiceError::InfrastructureError(e)),
            Ok(true) => return Err(UserServiceError::UserExists(phone.clone(), String::new())),
            Ok(false) => {},
        }
        match card_taken {
            Err(e) => Err(UserServiceError::InfrastructureError(e)),
            Ok(true) => Err(UserServiceError::UserExists(String::new(), identity_card_id.clone())),
            Ok(false) => Ok(()),
        }
    }

    /// A new account for a registration that was accepted: the password
    /// hashed with a fresh salt, no payment password, no failed attempt.
    /// It is made for every password within Argon2's length limit.
    pub fn new_user(&self, username: String, raw_password: &Vec<u8>, user_info: UserInfo) -> (r: Result<
        User,
        UserServiceError,
    >)
        ensures
            match r {
                Ok(u) => {
                    &&& u.id is None
                    &&& u.username@ == username@
                    &&& argon2_phc(raw_password@, u.hashed_password.salt@) == Some(
                        u.hashed_password.hashed_password@,
                    )
                    &&& argon2_matches(raw_password@, u.hashed_password.hashed_password@) == Some(true)
                    &&& u.hashed_payment_password is None
                    &&& u.wrong_payment_password_tried == 0
                    &&& u.user_info == user_info
                },
                Err(e) => e == UserServiceError::PasswordFailure(PasswordError::HashFailed),
            },
            raw_password@.len() <= 0xFFFF_FFFF ==> r is Ok,
    {
        let salt = PasswordServiceImpl::<Argon2PasswordSaltGenerator, Argon2PasswordHasher>::generate_salt();
        match PasswordServiceImpl::<Argon2PasswordSaltGenerator, Argon2PasswordHasher>::hash_password(
            raw_password,
            salt,
        ) {
            Ok(h) => Ok(
                User {
                    id: None,
                    username,
                    hashed_password: h,
                    hashed_payment_password: None,
                    wrong_payment_password_tried: 0,
                    user_info,
                },
            ),
            Err(e) => Err(UserServiceError::PasswordFailure(e)),
        }
    }

    /// Registers a user: refused when the phone number or the identity card
    /// number already belongs to a user (or its lookup failed), else the new
    /// account to store, with the password hashed under a fresh salt.
    pub fn register(
        &self,
        username: String,
        raw_password: &Vec<u8>,
        user_info: UserInfo,
        phone_taken: Result<bool, RepositoryError>,
        card_taken: Result<bool, RepositoryError>,
    ) -> (r: Result<User, UserServiceError>)
        ensures
            match phone_taken {
                Err(e) => r == Err::<User, _>(UserServiceError::InfrastructureError(e)),
                Ok(true) => r matches Err(UserServiceError::UserExists(p, c)) && p@ == user_info.phone@ && c@
                    == Seq::<char>::empty(),
                Ok(false) => match card_taken {
                    Err(e) => r == Err::<User, _>(UserServiceError::InfrastructureError(e)),
                    Ok(true) => r matches Err(UserServiceError::UserExists(p, c)) && p@
                        == Seq::<char>::empty() && c@ == user_info.identity_card_id@,
                    Ok(false) => match r {
                        Ok(u) => {
                            &&& u.id is None
                            &&& u.username@ == username@
                            &&& argon2_phc(raw_password@, u.hashed_password.salt@) == Some(
                                u.hashed_password.hashed_password@,
                            )
                            &&& argon2_matches(raw_password@, u.hashed_password.hashed_password@) == Some(true)
                            &&& u.hashed_payment_password is None
                            &&& u.wrong_payment_password_tried == 0
                            &&& u.user_info == user_info
                        },
                        Err(e) => e == UserServiceError::PasswordFailure(PasswordError::HashFailed)
                            && raw_password@.len() > 0xFFFF_FFFF,
                    },
                },
            },
    {
        match self.check_register(&user_info.phone, &user_info.identity_card_id, phone_taken, card_taken) {
            Err(e) => Err(e),
            Ok(()) => self.new_user(username, raw_password, user_info),
        }
    }

    /// Checks a password against the user's stored hash.
    pub fn verify_password(&self, user: &User, raw_password: &Vec<u8>) -> (r: Result<(), UserServiceError>)
        ensures
            r == password_check(*user, raw_password@),
    {
        match PasswordServiceImpl::<Argon2PasswordSaltGenerator, Argon2PasswordHasher>::verify(
            raw_password,
            &user.hashed_password,
        ) {
            Ok(true) => Ok(()),
            Ok(false) => Err(UserServiceError::InvalidPassword),
            Err(e) => Err(UserServiceError::PasswordFailure(e)),
        }
    }

    /// Sets a new password for the user found by id, hashed with the user's
    /// salt; `NoSuchUser` when there is no such user.
    pub fn set_password(
        &self,
        user_id: u64,
        found: Result<Option<User>, RepositoryError>,
        raw_password: &Vec<u8>,
    ) -> (r: Result<User, UserServiceError>)
        ensures
            match found {
                Err(e) => r == Err::<User, _>(UserServiceError::InfrastructureError(e)),
                Ok(None) => r == Err::<User, _>(UserServiceError::NoSuchUser(user_id)),
                Ok(Some(u)) => match argon2_phc(raw_password@, u.hashed_password.salt@) {
                    None => r == Err::<User, _>(UserServiceError::PasswordFailure(PasswordError::HashFailed)),
                    Some(h) => r matches Ok(v) && v.hashed_password.hashed_password@ == h
                        && v.hashed_password.salt@ == u.hashed_password.salt@ && v.id == u.id
                        && argon2_matches(raw_password@, h) == Some(true),
                },
            },
    {
        match found {
            Err(e) => Err(UserServiceError::InfrastructureError(e)),
            Ok(None) => Err(UserServiceError::NoSuchUser(user_id)),
            Ok(Some(u)) => {
                let salt = u.hashed_password.salt.clone();
                match PasswordServiceImpl::<Argon2PasswordSaltGenerator, Argon2PasswordHasher>::hash_password(
                    raw_password,
                    salt,
                ) {
                    Ok(h) => Ok(User { hashed_password: h, ..u }),
                    Err(e) => Err(UserServiceError::PasswordFailure(e)),
                }
            },
        }
    }

    /// Sets (`Some`) or clears (`None`) the payment password of the user
    /// found by id, hashed with the salt of the login password;
    /// `NoSuchUser` when there is no such user.
    pub fn set_payment_password(
        &self,
        user_id: u64,
        found: Result<Option<User>, RepositoryError>,
        payment_password: Option<Vec<u8>>,
    ) -> (r: Result<User, UserServiceError>)
        ensures
            match found {
                Err(e) => r == Err::<User, _>(UserServiceError::InfrastructureError(e)),
                Ok(None) => r == Err::<User, _>(UserServiceError::NoSuchUser(user_id)),
                Ok(Some(u)) => match payment_password {
                    None => r == Ok::<User, UserServiceError>(User { hashed_payment_password: None, ..u }),
                    Some(p) => match argon2_phc(p@, u.hashed_password.salt@) {
                        None => r == Err::<User, _>(UserServiceError::PasswordFailure(PasswordError::HashFailed)),
                        Some(h) => (r matches Ok(v) && (v.hashed_payment_password matches Some(hp) && hp.hashed_password@
                            == h && hp.salt@ == u.hashed_password.salt@ && v == (User {
                            hashed_payment_password: Some(hp),
                            ..u
                        }) && argon2_matches(p@, h) == Some(true))),
                    },
                },
            },
    {
        match found {
            Err(e) => Err(UserServiceError::InfrastructureError(e)),
            Ok(None) => Err(UserServiceError::NoSuchUser(user_id)),
            Ok(Some(u)) => match payment_password {
                None => Ok(User { hashed_payment_password: None, ..u }),
                Some(p) => {
                    let salt = u.hashed_password.salt.clone();
                    match PasswordServiceImpl::<Argon2PasswordSaltGenerator, Argon2PasswordHasher>::hash_password(
                        &p,
                        salt,
                    ) {
                        Ok(h) => Ok(User { hashed_payment_password: Some(h), ..u }),
                        Err(e) => Err(UserServiceError::PasswordFailure(e)),
                    }
                },
            },
        }
    }

    /// Sets the count of wrong payment passwords of the user found by id.
    pub fn set_wrong_payment_password_tried(
        &self,
        user_id: u64,
        found: Result<Option<User>, RepositoryError>,
        attempts: u32,
    ) -> (r: Result<User, UserServiceError>)
        ensures
            match found {
                Err(e) => r == Err::<User, _>(UserServiceError::InfrastructureError(e)),
                Ok(None) => r == Err::<User, _>(UserServiceError::NoSuchUser(user_id)),
                Ok(Some(u)) => r == Ok::<User, UserServiceError>(User { wrong_payment_password_tried: attempts, ..u }),
            },
    {
        match found {
            Err(e) => Err(UserServiceError::InfrastructureError(e)),
            Ok(None) => Err(UserServiceError::NoSuchUser(user_id)),
            Ok(Some(u)) => Ok(User { wrong_payment_password_tried: attempts, ..u }),
        }
    }

    /// Resets the count of wrong payment passwords of the user found by id.
    pub fn clear_wrong_payment_password_tried(
        &self,
        user_id: u64,
        found: Result<Option<User>, RepositoryError>,
    ) -> (r: Result<User, UserServiceError>)
        ensures
            match found {
                Err(e) => r == Err::<User, _>(UserServiceError::InfrastructureError(e)),
                Ok(None) => r == Err::<User, _>(UserServiceError::NoSuchUser(user_id)),
                Ok(Some(u)) => r == Ok::<User, UserServiceError>(User { wrong_payment_password_tried: 0, ..u }),
            },
    {
        self.set_wrong_payment_password_tried(user_id, found, 0)
    }

    /// Counts one more wrong payment password for the user found by id;
    /// refused once the count has reached `max_attempts`.
    pub fn increment_wrong_payment_password_tried(
        &self,
        user_id: u64,
        found: Result<Option<User>, RepositoryError>,
        max_attempts: u32,
    ) -> (r: Result<User, UserServiceError>)
        ensures
            match found {
                Err(e) => r == Err::<User, _>(UserServiceError::InfrastructureError(e)),
                Ok(None) => r == Err::<User, _>(UserServiceError::NoSuchUser(user_id)),
                Ok(Some(u)) => if u.wrong_payment_password_tried >= max_attempts {
                    r == Err::<User, _>(UserServiceError::PaymentPasswordMaxAttemptsExceed(max_attempts))
                } else {
                    r == Ok::<User, UserServiceError>(
                        User { wrong_payment_password_tried: (u.wrong_payment_password_tried + 1) as u32, ..u },
                    )
                },
            },
    {
        match found {
            Err(e) => Err(UserServiceError::InfrastructureError(e)),
            Ok(None) => Err(UserServiceError::NoSuchUser(user_id)),
            Ok(Some(u)) => {
                if u.wrong_payment_password_tried >= max_attempts {
                    Err(UserServiceError::PaymentPasswordMaxAttemptsExceed(max_attempts))
                } else {
                    let tried = u.wrong_payment_password_tried + 1;
                    Ok(User { wrong_payment_password_tried: tried, ..u })
                }
            },
        }
    }

    /// Replaces the personal data of the user found by id.
    pub fn set_user_info(
        &self,
        user_id: u64,
        found: Result<Option<User>, RepositoryError>,
        user_info: UserInfo,
    ) -> (r: Result<User, UserServiceError>)
        ensures
            match found {
                Err(e) => r == Err::<User, _>(UserServiceError::InfrastructureError(e)),
                Ok(None) => r == Err::<User, _>(UserServiceError::NoSuchUser(user_id)),
                Ok(Some(u)) => r == Ok::<User, UserServiceError>(User { user_info, ..u }),
            },
    {
        match found {
            Err(e) => Err(UserServiceError::InfrastructureError(e)),
            Ok(None) => Err(UserServiceError::NoSuchUser(user_id)),
            Ok(Some(u)) => Ok(User { user_info, ..u }),
        }
    }
}

/// A user whose password was just set (its hash made from that password)
/// passes the password check with it.
pub proof fn law_set_password_then_verify(u: User, password: Seq<u8>)
    requires
        argon2_matches(password, u.hashed_password.hashed_password@) == Some(true),
    ensures
        password_check(u, password) == Ok::<(), UserServiceError>(()),
{
}

} // verus!
