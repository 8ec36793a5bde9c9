//! Secrets: named values sealed under the master key, and their clear form.
use vstd::prelude::*;
use vstd::string::*;
use vstd::utf8::*;

use crate::crypto::{self, decryption, seals, Key};
use crate::error::VaultError;
use crate::store::{has_id, has_name, index_of_id, index_of_name, Vault, VaultModel};

verus! {

/// The view of an optional text.
pub open spec fn opt_text(o: Option<String>) -> Option<Seq<char>> {
    match o {
        Some(s) => Some(s@),
        None => None,
    }
}

/// A copy of an optional text.
pub fn copy_opt_text(o: &Option<String>) -> (r: Option<String>)
    ensures
        opt_text(r) == opt_text(*o),
{
    match o {
        Some(s) => Some(s.clone()),
        None => None,
    }
}

/// What a stored secret holds.
pub ghost struct SecretModel {
    pub id: Option<i64>,
    pub name: Seq<char>,
    pub value: Seq<u8>,
    pub description: Option<Seq<char>>,
}

/// What a secret in the clear holds.
pub ghost struct ClearSecretModel {
    pub id: Option<i64>,
    pub name: Seq<char>,
    pub value: Seq<char>,
    pub description: Option<Seq<char>>,
}

/// A secret as it is stored: its value is the sealed cleartext.
#[derive(Debug)]
pub struct Secret {
    pub id: Option<i64>,
    pub name: String,
    pub value: Vec<u8>,
    pub description: Option<String>,
}

/// A secret whose value is in the clear.
#[derive(Debug)]
pub struct ClearSecret {
    pub id: Option<i64>,
    pub name: String,
    pub value: String,
    pub description: Option<String>,
}

impl View for Secret {
    type V = SecretModel;

    open spec fn view(&self) -> SecretModel {
        SecretModel {
            id: self.id,
            name: self.name@,
            value: self.value@,
            description: opt_text(self.description),
        }
    }
}

impl View for ClearSecret {
    type V = ClearSecretModel;

    open spec fn view(&self) -> ClearSecretModel {
        ClearSecretModel {
            id: self.id,
            name: self.name@,
            value: self.value@,
            description: opt_text(self.description),
        }
    }
}

/// What opening a stored value under key `k` gives: the text it seals, or
/// the error that stops it.
pub open spec fn cleartext_of(k: Seq<u8>, value: Seq<u8>) -> Result<Seq<char>, VaultError> {
    match decryption(k, value) {
        Err(e) => Err(e),
        Ok(p) => if valid_utf8(p) {
            Ok(decode_utf8(p))
        } else {
            Err(VaultError::InvalidUtf8)
        },
    }
}

/// Why `update` refuses a secret, or `None` when it accepts it.
pub open spec fn update_outcome(db: VaultModel, s: SecretModel) -> Option<VaultError> {
    match s.id {
        None => Some(VaultError::NotFound),
        Some(id) => if !has_id(db.secrets, id) {
            Some(VaultError::NotFound)
        } else if has_name(db.secrets, s.name) && index_of_name(db.secrets, s.name) != index_of_id(
            db.secrets,
            id,
        ) {
            Some(VaultError::DuplicateName)
        } else {
            None
        },
    }
}

/// Why `rename` refuses to rename `name` to `new_name`, or `None` when it
/// accepts.
pub open spec fn rename_outcome(db: VaultModel, name: Seq<char>, new_name: Seq<char>) -> Option<
    VaultError,
> {
    if !has_name(db.secrets, name) {
        Some(VaultError::NotFound)
    } else if has_name(db.secrets, new_name) && index_of_name(db.secrets, new_name)
        != index_of_name(db.secrets, name) {
        Some(VaultError::DuplicateName)
    } else {
        None
    }
}

/// The vault after the secret `name` is renamed to `new_name`.
pub open spec fn renamed(db: VaultModel, name: Seq<char>, new_name: Seq<char>) -> VaultModel {
    let i = index_of_name(db.secrets, name);
    VaultModel {
        secrets: db.secrets.update(i, SecretModel { name: new_name, ..db.secrets[i] }),
        ..db
    }
}

/// A non-empty text has a non-empty UTF-8 encoding.
pub proof fn lemma_encode_nonempty(text: Seq<char>)
    ensures
        (encode_utf8(text).len() > 0) == (text.len() > 0),
{
    if text.len() > 0 {
        let c = text[0] as u32;
        assert(encode_scalar(c).len() > 0);
    }
}

/// A secret sealed from a text under key `k` opens under `k` to the same text.
pub proof fn lemma_cleartext_round_trip(k: Seq<u8>, text: Seq<char>, value: Seq<u8>)
    requires
        seals(k, encode_utf8(text), value),
    ensures
        cleartext_of(k, value) == Ok::<Seq<char>, VaultError>(text),
{
    encode_utf8_valid_utf8(text);
    encode_utf8_decode_utf8(text);
}

impl Secret {
    /// A copy of the secret.
    pub fn duplicate(&self) -> (r: Secret)
        ensures
            r@ == self@,
    {
        Secret {
            id: self.id,
            name: self.name.clone(),
            value: self.value.clone(),
            description: copy_opt_text(&self.description),
        }
    }

    /// The stored secret named `name`.
    pub fn get(db: &Vault, name: &str) -> (r: Result<Secret, VaultError>)
        requires
            db.wf(),
        ensures
            r is Ok <==> has_name(db@.secrets, name@),
            r matches Ok(s) ==> s@ == db@.secrets[index_of_name(db@.secrets, name@)],
            r matches Err(e) ==> e == VaultError::NotFound,
    {
        match db.find(name) {
            Some(i) => Ok(db.secrets[i].duplicate()),
            None => Err(VaultError::NotFound),
        }
    }

    /// Every stored secret.
    pub fn get_all(db: &Vault) -> (r: Vec<Secret>)
        requires
            db.wf(),
        ensures
            r@.len() == db@.secrets.len(),
            forall|i: int| 0 <= i < r@.len() ==> #[trigger] r@[i]@ == db@.secrets[i],
    {
        let mut out: Vec<Secret> = Vec::new();
        let mut i: usize = 0;
        while i < db.secrets.len()
            invariant
                i <= db.secrets@.len(),
                out@.len() == i,
                forall|j: int| 0 <= j < i ==> #[trigger] out@[j]@ == db.secrets@[j]@,
            decreases db.secrets@.len() - i,
        {
            out.push(db.secrets[i].duplicate());
            i = i + 1;
        }
        out
    }

    /// Stores the secret under a fresh id; its name must not be taken.
    pub fn store(&self, db: &mut Vault) -> (r: Result<(), VaultError>)
        requires
            old(db).wf(),
        ensures
            final(db).wf(),
            r is Ok <==> !has_name(old(db)@.secrets, self.name@) && old(db)@.next_id < i64::MAX,
            r matches Err(e) ==> final(db)@ == old(db)@ && e == (if has_name(
                old(db)@.secrets,
                self.name@,
            ) {
                VaultError::DuplicateName
            } else {
                VaultError::StorageFailure
            }),
            r is Ok ==> final(db)@ == (VaultModel {
                secrets: old(db)@.secrets.push(
                    SecretModel { id: Some(old(db)@.next_id), ..self@ },
                ),
                next_id: (old(db)@.next_id + 1) as i64,
                ..old(db)@
            }),
    {
        if db.find(self.name.as_str()).is_some() {
            return Err(VaultError::DuplicateName);
        }
        if db.next_id == i64::MAX {
            return Err(VaultError::StorageFailure);
        }
        let ghost before = db@;
        let mut s = self.duplicate();
        s.id = Some(db.next_id);
        db.secrets.push(s);
        db.next_id = db.next_id + 1;
        proof {
            assert(db@.secrets =~= before.secrets.push(SecretModel { id: Some(before.next_id), ..self@ }));
            let n = before.secrets.len() as int;
            assert forall|i: int, j: int|
                0 <= i < db@.secrets.len() && 0 <= j < db@.secrets.len() && i != j
                implies #[trigger] db@.secrets[i].name != #[trigger] db@.secrets[j].name by {
                if i == n {
                    assert(before.secrets[j].name != self.name@);
                } else if j == n {
                    assert(before.secrets[i].name != self.name@);
                }
            }
            assert forall|i: int, j: int|
                0 <= i < db@.secrets.len() && 0 <= j < db@.secrets.len() && i != j
                implies #[trigger] db@.secrets[i].id != #[trigger] db@.secrets[j].id by {
                if i == n {
                    assert(before.secrets[j].id matches Some(x) && x < before.next_id);
                } else if j == n {
                    assert(before.secrets[i].id matches Some(x) && x < before.next_id);
                }
            }
            assert forall|i: int| 0 <= i < db@.secrets.len()
                implies (#[trigger] db@.secrets[i].id matches Some(x) && 1 <= x < db@.next_id) by {
                if i < n {
                    assert(before.secrets[i].id matches Some(x) && 1 <= x < before.next_id);
                }
            }
        }
        Ok(())
    }

    /// Rewrites the stored secret with the same id; its name must not be
    /// taken by another secret.
    pub fn update(&self, db: &mut Vault) -> (r: Result<(), VaultError>)
        requires
            old(db).wf(),
        ensures
            final(db).wf(),
            r is Ok <==> update_outcome(old(db)@, self@) is None,
            r matches Err(e) ==> final(db)@ == old(db)@ && update_outcome(old(db)@, self@) == Some(e),
            r is Ok ==> final(db)@ == (VaultModel {
                secrets: old(db)@.secrets.update(
                    index_of_id(old(db)@.secrets, self.id->Some_0),
                    self@,
                ),
                ..old(db)@
            }),
    {
        let id = match self.id {
            Some(id) => id,
            None => return Err(VaultError::NotFound),
        };
        let i = match db.find_id(id) {
            Some(i) => i,
            None => return Err(VaultError::NotFound),
        };
        match db.find(self.name.as_str()) {
            Some(j) => {
                if j != i {
                    return Err(VaultError::DuplicateName);
                }
            },
            None => {},
        }
        let ghost before = db@;
        db.secrets.set(i, self.duplicate());
        proof {
            assert(db@.secrets =~= before.secrets.update(i as int, self@));
            assert forall|a: int, b: int|
                0 <= a < db@.secrets.len() && 0 <= b < db@.secrets.len() && a != b
                implies #[trigger] db@.secrets[a].name != #[trigger] db@.secrets[b].name by {
                if a == i as int {
                    if before.secrets[b].name == self.name@ {
                        assert(has_name(before.secrets, self.name@));
                    }
                } else if b == i as int {
                    if before.secrets[a].name == self.name@ {
                        assert(has_name(before.secrets, self.name@));
                    }
                }
            }
            assert forall|a: int, b: int|
                0 <= a < db@.secrets.len() && 0 <= b < db@.secrets.len() && a != b
                implies #[trigger] db@.secrets[a].id != #[trigger] db@.secrets[b].id by {
                if a == i as int {
                    assert(before.secrets[b].id != before.secrets[a].id);
                } else if b == i as int {
                    assert(before.secrets[a].id != before.secrets[b].id);
                }
            }
            assert forall|a: int| 0 <= a < db@.secrets.len()
                implies (#[trigger] db@.secrets[a].id matches Some(x) && 1 <= x < db@.next_id) by {
                assert(before.secrets[a].id matches Some(x) && 1 <= x < before.next_id);
            }
        }
        Ok(())
    }

    /// Removes the stored secret with this secret's name.
    pub fn delete(&self, db: &mut Vault) -> (r: Result<(), VaultError>)
        requires
            old(db).wf(),
        ensures
            final(db).wf(),
            r is Ok <==> has_name(old(db)@.secrets, self.name@),
            r matches Err(e) ==> final(db)@ == old(db)@ && e == VaultError::NotFound,
            r is Ok ==> final(db)@ == (VaultModel {
                secrets: old(db)@.secrets.remove(index_of_name(old(db)@.secrets, self.name@)),
                ..old(db)@
            }),
    {
        let i = match db.find(self.name.as_str()) {
            Some(i) => i,
            None => return Err(VaultError::NotFound),
        };
        let ghost before = db@;
        let _ = db.secrets.remove(i);
        proof {
            assert(db@.secrets =~= before.secrets.remove(i as int));
            assert forall|a: int, b: int|
                0 <= a < db@.secrets.len() && 0 <= b < db@.secrets.len() && a != b
                implies #[trigger] db@.secrets[a].name != #[trigger] db@.secrets[b].name by {
                let a0 = if a < i { a } else { a + 1 };
                let b0 = if b < i { b } else { b + 1 };
                assert(before.secrets[a0].name != before.secrets[b0].name);
            }
            assert forall|a: int, b: int|
                0 <= a < db@.secrets.len() && 0 <= b < db@.secrets.len() && a != b
                implies #[trigger] db@.secrets[a].id != #[trigger] db@.secrets[b].id by {
                let a0 = if a < i { a } else { a + 1 };
                let b0 = if b < i { b } else { b + 1 };
                assert(before.secrets[a0].id != before.secrets[b0].id);
            }
            assert forall|a: int| 0 <= a < db@.secrets.len()
                implies (#[trigger] db@.secrets[a].id matches Some(x) && 1 <= x < db@.next_id) by {
                let a0 = if a < i { a } else { a + 1 };
                assert(before.secrets[a0].id matches Some(x) && 1 <= x < before.next_id);
            }
        }
        Ok(())
    }

    /// Renames the stored secret with this secret's name to `new_name`,
    /// which must not be taken by another secret.
    pub fn rename(&mut self, db: &mut Vault, new_name: &str) -> (r: Result<(), VaultError>)
        requires
            old(db).wf(),
        ensures
            final(db).wf(),
            r is Ok <==> rename_outcome(old(db)@, old(self).name@, new_name@) is None,
            r matches Err(e) ==> final(db)@ == old(db)@ && *final(self) == *old(self)
                && rename_outcome(old(db)@, old(self).name@, new_name@) == Some(e),
            r is Ok ==> final(db)@ == renamed(old(db)@, old(self).name@, new_name@)
                && final(self)@ == (SecretModel { name: new_name@, ..old(self)@ }),
    {
        let i = match db.find(self.name.as_str()) {
            Some(i) => i,
            None => return Err(VaultError::NotFound),
        };
        match db.find(new_name) {
            Some(j) => {
                if j != i {
                    return Err(VaultError::DuplicateName);
                }
            },
            None => {},
        }
        let ghost before = db@;
        let mut s = db.secrets[i].duplicate();
        s.name = new_name.to_owned();
        db.secrets.set(i, s);
        proof {
            assert(db@.secrets =~= before.secrets.update(
                i as int,
                SecretModel { name: new_name@, ..before.secrets[i as int] },
            ));
            assert forall|a: int, b: int|
                0 <= a < db@.secrets.len() && 0 <= b < db@.secrets.len() && a != b
                implies #[trigger] db@.secrets[a].name != #[trigger] db@.secrets[b].name by {
                if a == i as int {
                    if before.secrets[b].name == new_name@ {
                        assert(has_name(before.secrets, new_name@));
                    }
                } else if b == i as int {
                    if before.secrets[a].name == new_name@ {
                        assert(has_name(before.secrets, new_name@));
                    }
                }
            }
            assert forall|a: int, b: int|
                0 <= a < db@.secrets.len() && 0 <= b < db@.secrets.len() && a != b
                implies #[trigger] db@.secrets[a].id != #[trigger] db@.secrets[b].id by {
                assert(before.secrets[a].id != before.secrets[b].id);
            }
            assert forall|a: int| 0 <= a < db@.secrets.len()
                implies (#[trigger] db@.secrets[a].id matches Some(x) && 1 <= x < db@.next_id) by {
                assert(before.secrets[a].id matches Some(x) && 1 <= x < before.next_id);
            }
        }
        self.name = new_name.to_owned();
        Ok(())
    }

    /// Opens the secret's value under `key`.
    pub fn to_cleartext(&self, key: &Key) -> (r: Result<ClearSecret, VaultError>)
        ensures
            match r {
                Ok(c) => cleartext_of(key@, self.value@) == Ok::<Seq<char>, VaultError>(c.value@)
                    && c.id == self.id && c.name@ == self.name@
                    && opt_text(c.description) == opt_text(self.description),
                Err(e) => cleartext_of(key@, self.value@) == Err::<Seq<char>, VaultError>(e),
            },
    {
        let bytes = crypto::decrypt(key, self.value.as_slice())?;
        match crypto::utf8_text(bytes.as_slice()) {
            Some(text) => {
                proof {
                    decode_utf8_encode_utf8(bytes@);
                    encode_utf8_decode_utf8(text@);
                }
                Ok(
                    ClearSecret {
                        id: self.id,
                        name: self.name.clone(),
                        value: text,
                        description: copy_opt_text(&self.description),
                    },
                )
            },
            None => Err(VaultError::InvalidUtf8),
        }
    }
}

impl ClearSecret {
    /// A secret in the clear, not yet stored.
    pub fn new(name: &str, value: &str, description: Option<String>) -> (r: ClearSecret)
        ensures
            r.id is None,
            r.name@ == name@,
            r.value@ == value@,
            opt_text(r.description) == opt_text(description),
    {
        ClearSecret { id: None, name: name.to_owned(), value: value.to_owned(), description }
    }

    /// Seals the value under `key`; an empty value cannot be sealed.
    pub fn to_encrypted(&self, key: &Key) -> (r: Result<Secret, VaultError>)
        ensures
            r is Ok <==> self.value@.len() > 0,
            r matches Ok(s) ==> seals(key@, encode_utf8(self.value@), s.value@) && s.id == self.id
                && s.name@ == self.name@ && opt_text(s.description) == opt_text(
                self.description,
            ),
            r matches Err(e) ==> e == VaultError::EncryptionFailed,
    {
        proof {
            lemma_encode_nonempty(self.value@);
        }
        let value = crypto::encrypt(key, self.value.as_str().as_bytes())?;
        Ok(
            Secret {
                id: self.id,
                name: self.name.clone(),
                value,
                description: copy_opt_text(&self.description),
            },
        )
    }
}

/// Seals `cleartext` under `key` and stores it as a new secret named `name`.
pub fn create(db: &mut Vault, key: &Key, name: &str, cleartext: &str, description: Option<String>) -> (r:
    Result<(), VaultError>)
    requires
        old(db).wf(),
    ensures
        final(db).wf(),
        r is Ok <==> cleartext@.len() > 0 && !has_name(old(db)@.secrets, name@) && old(db)@.next_id
            < i64::MAX,
        r matches Err(e) ==> final(db)@ == old(db)@ && e == (if cleartext@.len() == 0 {
            VaultError::EncryptionFailed
        } else if has_name(old(db)@.secrets, name@) {
            VaultError::DuplicateName
        } else {
            VaultError::StorageFailure
        }),
        r is Ok ==> {
            let n = old(db)@.secrets.len();
            let s = final(db)@.secrets[n as int];
            &&& final(db)@.secrets == old(db)@.secrets.push(s)
            &&& final(db)@.next_id == old(db)@.next_id + 1
            &&& final(db)@.user == old(db)@.user
            &&& final(db)@.sessions == old(db)@.sessions
            &&& s.id == Some(old(db)@.next_id)
            &&& s.name == name@
            &&& s.description == opt_text(description)
            &&& seals(key@, encode_utf8(cleartext@), s.value)
        },
{
    let clear = ClearSecret::new(name, cleartext, description);
    let sealed = clear.to_encrypted(key)?;
    let r = sealed.store(db);
    proof {
        if r is Ok {
            let n = old(db)@.secrets.len();
            assert(db@.secrets[n as int] == SecretModel { id: Some(old(db)@.next_id), ..sealed@ });
        }
    }
    r
}

} // verus!
