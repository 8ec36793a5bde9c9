//! An unlocked vault: its records and the master key that opens its secrets.
use vstd::prelude::*;

use crate::crypto::{password_matches, Key};
use crate::error::VaultError;
use crate::store::Vault;
use crate::user::{master_key_result, User};

verus! {

/// How the master key of an unlocked vault was obtained.
#[derive(Debug, Clone, Copy, PartialEq, Eq, Structural)]
pub enum AuthMethod {
    Password,
    Session,
}

/// A vault together with its master key.
pub struct App {
    pub db: Vault,
    pub master_key: Key,
    pub auth_method: AuthMethod,
}

impl App {
    /// The vault's user, once `password` has been verified against it.
    pub fn authenticate_user(db: &Vault, password: &str) -> (r: Result<User, VaultError>)
        ensures
            r is Ok <==> (db@.user matches Some(u) && password_matches(password@, u.hash)),
            r matches Ok(u) ==> db@.user == Some(u@),
            r matches Err(e) ==> e == (if db@.user is None {
                VaultError::NotFound
            } else {
                VaultError::AuthenticationFailed
            }),
    {
        let user = User::load(db)?;
        if user.authenticate(password) {
            Ok(user)
        } else {
            Err(VaultError::AuthenticationFailed)
        }
    }

    /// Unlocks the vault with the master password.
    pub fn with_password(db: Vault, password: &str) -> (r: Result<App, VaultError>)
        ensures
            match r {
                Ok(a) => a.db@ == db@ && a.auth_method == AuthMethod::Password && (db@.user matches Some(u)
                    && master_key_result(u, password) == Ok::<Seq<u8>, VaultError>(a.master_key@)),
                Err(e) => match db@.user {
                    None => e == VaultError::NotFound,
                    Some(u) => master_key_result(u, password) == Err::<Seq<u8>, VaultError>(e),
                },
            },
    {
        let user = match App::authenticate_user(&db, password) {
            Ok(u) => u,
            Err(e) => return Err(e),
        };
        let master_key = user.master_key(password)?;
        Ok(App { db, master_key, auth_method: AuthMethod::Password })
    }
}

} // verus!
