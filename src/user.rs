//! The vault's single identity: the master password's hash and the salt of
//! key derivation.
use vstd::prelude::*;

use crate::crypto::{self, derivation, password_matches, usable_password, Key, SALT_LEN};
use crate::error::VaultError;
use crate::store::Vault;

verus! {

/// What the user record holds.
pub ghost struct UserModel {
    pub id: i64,
    pub hash: Seq<char>,
    pub salt: Seq<u8>,
}

/// The vault's identity record; its id is always 1.
#[derive(Debug)]
pub struct User {
    pub id: i64,
    pub master_password_hash: String,
    pub salt: Vec<u8>,
}

impl View for User {
    type V = UserModel;

    open spec fn view(&self) -> UserModel {
        UserModel { id: self.id, hash: self.master_password_hash@, salt: self.salt@ }
    }
}

/// What `master_key` gives for a user record and a password.
pub open spec fn master_key_result(u: UserModel, password: &str) -> Result<Seq<u8>, VaultError> {
    if !password_matches(password@, u.hash) {
        Err(VaultError::AuthenticationFailed)
    } else {
        derivation(password, u.salt)
    }
}

impl User {
    /// A new identity for `password`: a fresh salt and a hash of the
    /// password. Nothing is stored.
    pub fn new(cleartext_password: &str) -> (r: Result<User, VaultError>)
        ensures
            r is Ok <==> usable_password(cleartext_password),
            r matches Ok(u) ==> u.id == 1 && u.salt@.len() == SALT_LEN && password_matches(
                cleartext_password@,
                u.master_password_hash@,
            ),
            r matches Err(e) ==> e == VaultError::InvalidPassword,
    {
        let pwhash = crypto::hash_password(cleartext_password)?;
        let salt = crypto::generate_salt();
        Ok(User { id: 1, master_password_hash: pwhash, salt })
    }

    /// A copy of the record.
    pub fn duplicate(&self) -> (r: User)
        ensures
            r@ == self@,
    {
        User { id: self.id, master_password_hash: self.master_password_hash.clone(), salt: self.salt.clone() }
    }

    /// Whether `password` is the master password.
    pub fn authenticate(&self, password: &str) -> (r: bool)
        ensures
            r == password_matches(password@, self.master_password_hash@),
    {
        crypto::verify_hash(password, self.master_password_hash.as_str())
    }

    /// The master key, derived from `password` and the salt once the
    /// password has been verified.
    pub fn master_key(&self, password: &str) -> (r: Result<Key, VaultError>)
        ensures
            match r {
                Ok(k) => master_key_result(self@, password) == Ok::<Seq<u8>, VaultError>(k@),
                Err(e) => master_key_result(self@, password) == Err::<Seq<u8>, VaultError>(e),
            },
    {
        if !self.authenticate(password) {
            return Err(VaultError::AuthenticationFailed);
        }
        crypto::derive_key(password, self.salt.as_slice())
    }

    /// The vault's user record.
    pub fn load(db: &Vault) -> (r: Result<User, VaultError>)
        ensures
            r is Ok <==> db@.user is Some,
            r matches Ok(u) ==> db@.user == Some(u@),
            r matches Err(e) ==> e == VaultError::NotFound,
    {
        match &db.user {
            Some(u) => Ok(u.duplicate()),
            None => Err(VaultError::NotFound),
        }
    }

    /// Stores the record as the vault's user, with id 1; a vault holds one
    /// user only.
    pub fn store(&self, db: &mut Vault) -> (r: Result<(), VaultError>)
        requires
            old(db).wf(),
        ensures
            final(db).wf(),
            r is Ok <==> old(db)@.user is None,
            r matches Err(e) ==> e == VaultError::StorageFailure && final(db)@ == old(db)@,
            r is Ok ==> final(db)@ == (crate::store::VaultModel {
                user: Some(UserModel { id: 1, hash: self.master_password_hash@, salt: self.salt@ }),
                ..old(db)@
            }),
    {
        if db.user.is_some() {
            return Err(VaultError::StorageFailure);
        }
        let mut u = self.duplicate();
        u.id = 1;
        db.user = Some(u);
        Ok(())
    }

    /// Rewrites the hash and the salt of the vault's user together.
    pub fn update(&self, db: &mut Vault) -> (r: Result<(), VaultError>)
        requires
            old(db).wf(),
        ensures
            final(db).wf(),
            r is Ok <==> old(db)@.user is Some,
            r matches Err(e) ==> e == VaultError::NotFound && final(db)@ == old(db)@,
            r is Ok ==> final(db)@ == (crate::store::VaultModel {
                user: Some(UserModel { id: 1, hash: self.master_password_hash@, salt: self.salt@ }),
                ..old(db)@
            }),
    {
        if db.user.is_none() {
            return Err(VaultError::NotFound);
        }
        let mut u = self.duplicate();
        u.id = 1;
        db.user = Some(u);
        Ok(())
    }
}

} // verus!
