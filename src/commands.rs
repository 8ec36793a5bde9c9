//! The decisions behind the vault's commands, apart from the prompts and
//! the editor that feed them.
use vstd::prelude::*;
use vstd::string::*;
use vstd::utf8::*;

use crate::crypto::{self, opened, seals, Key};
use crate::error::VaultError;
use crate::secret::SecretModel;
use crate::store::{has_name, index_of_name, Vault, VaultModel};
use crate::text::{chars_of, same_bytes, string_from, trim, trim_chars};

verus! {

/// What editing the value of the secret `name` to `new` under key `k`
/// gives: whether the value changed, or the error that stops the edit.
pub open spec fn value_edit(db: VaultModel, k: Seq<u8>, name: Seq<char>, new: Seq<u8>) -> Result<
    bool,
    VaultError,
> {
    if !has_name(db.secrets, name) {
        Err(VaultError::NotFound)
    } else {
        match opened(k, db.secrets[index_of_name(db.secrets, name)].value) {
            None => Err(VaultError::DecryptionFailed),
            Some(p) => if p == new {
                Ok(false)
            } else if new.len() == 0 {
                Err(VaultError::EncryptionFailed)
            } else {
                Ok(true)
            },
        }
    }
}

/// The bytes of a description as an editor is given them.
pub open spec fn description_bytes(d: Option<Seq<char>>) -> Seq<u8> {
    match d {
        Some(t) => encode_utf8(t),
        None => seq![],
    }
}

/// What editing the description of the secret `name` to the bytes `new`
/// gives: whether it changed, or the error that stops the edit.
pub open spec fn description_edit(db: VaultModel, name: Seq<char>, new: Seq<u8>) -> Result<
    bool,
    VaultError,
> {
    if !has_name(db.secrets, name) {
        Err(VaultError::NotFound)
    } else if new == description_bytes(db.secrets[index_of_name(db.secrets, name)].description) {
        Ok(false)
    } else if new.len() > 0 && !valid_utf8(new) {
        Err(VaultError::InvalidUtf8)
    } else {
        Ok(true)
    }
}

/// Sets the value of the secret `name` to `new_contents`, sealed under
/// `key`, unless its value already opens to exactly those bytes. Returns
/// whether the value changed; on `Ok(false)` or an error nothing changes.
pub fn edit_value(db: &mut Vault, key: &Key, name: &str, new_contents: &[u8]) -> (r: Result<
    bool,
    VaultError,
>)
    requires
        old(db).wf(),
    ensures
        final(db).wf(),
        r == value_edit(old(db)@, key@, name@, new_contents@),
        r != Ok::<bool, VaultError>(true) ==> final(db)@ == old(db)@,
        r == Ok::<bool, VaultError>(true) ==> {
            let i = index_of_name(old(db)@.secrets, name@);
            let s = final(db)@.secrets[i];
            &&& final(db)@ == (VaultModel {
                secrets: old(db)@.secrets.update(i, SecretModel { value: s.value, ..old(db)@.secrets[i] }),
                ..old(db)@
            })
            &&& seals(key@, new_contents@, s.value)
        },
{
    let i = match db.find(name) {
        Some(i) => i,
        None => return Err(VaultError::NotFound),
    };
    let clear = crypto::decrypt(key, db.secrets[i].value.as_slice())?;
    if same_bytes(clear.as_slice(), new_contents) {
        return Ok(false);
    }
    let sealed = crypto::encrypt(key, new_contents)?;
    db.set_value(i, sealed);
    Ok(true)
}

/// Sets the description of the secret `name` from the bytes `new_desc`
/// (no description when they are empty), unless they are the bytes of its
/// current description. Returns whether it changed; on `Ok(false)` or an
/// error nothing changes.
pub fn edit_description(db: &mut Vault, name: &str, new_desc: &[u8]) -> (r: Result<
    bool,
    VaultError,
>)
    requires
        old(db).wf(),
    ensures
        final(db).wf(),
        r == description_edit(old(db)@, name@, new_desc@),
        r != Ok::<bool, VaultError>(true) ==> final(db)@ == old(db)@,
        r == Ok::<bool, VaultError>(true) ==> {
            let i = index_of_name(old(db)@.secrets, name@);
            let d = final(db)@.secrets[i].description;
            &&& final(db)@ == (VaultModel {
                secrets: old(db)@.secrets.update(i, SecretModel { description: d, ..old(db)@.secrets[i] }),
                ..old(db)@
            })
            &&& description_bytes(d) == new_desc@
            &&& new_desc@.len() == 0 ==> d is None
            &&& new_desc@.len() > 0 ==> d == Some(decode_utf8(new_desc@))
        },
{
    let i = match db.find(name) {
        Some(i) => i,
        None => return Err(VaultError::NotFound),
    };
    let unchanged = match &db.secrets[i].description {
        Some(d) => same_bytes(d.as_str().as_bytes(), new_desc),
        None => new_desc.len() == 0,
    };
    if unchanged {
        proof {
            if new_desc@.len() == 0 {
                assert(new_desc@ =~= seq![]);
            }
        }
        return Ok(false);
    }
    if new_desc.len() == 0 {
        db.set_description(i, None);
        assert(new_desc@ =~= seq![]);
        return Ok(true);
    }
    match crypto::utf8_text(new_desc) {
        Some(text) => {
            proof {
                encode_utf8_decode_utf8(text@);
            }
            db.set_description(i, Some(text));
            Ok(true)
        },
        None => Err(VaultError::InvalidUtf8),
    }
}

/// One row of the listing of secrets.
#[derive(Debug)]
pub struct SecretRow {
    pub id: i64,
    pub name: String,
    pub description: String,
}

/// The listing row of a stored secret: its id (0 when it has none), its
/// name and its trimmed description (empty when it has none).
pub open spec fn row_of(s: SecretModel) -> (i64, Seq<char>, Seq<char>) {
    (
        match s.id {
            Some(x) => x,
            None => 0,
        },
        s.name,
        match s.description {
            Some(d) => trim(d),
            None => seq![],
        },
    )
}

/// The listing rows of every stored secret, in order.
pub fn list_rows(db: &Vault) -> (r: Vec<SecretRow>)
    ensures
        r@.len() == db@.secrets.len(),
        forall|i: int|
            0 <= i < r@.len() ==> row_of(db@.secrets[i]) == (
                #[trigger] r@[i].id,
                r@[i].name@,
                r@[i].description@,
            ),
{
    let mut rows: Vec<SecretRow> = Vec::new();
    let mut i: usize = 0;
    while i < db.secrets.len()
        invariant
            i <= db@.secrets.len(),
            rows@.len() == i,
            forall|j: int|
                0 <= j < i ==> row_of(db@.secrets[j]) == (
                    #[trigger] rows@[j].id,
                    rows@[j].name@,
                    rows@[j].description@,
                ),
        decreases db@.secrets.len() - i,
    {
        let s = &db.secrets[i];
        let id = match s.id {
            Some(x) => x,
            None => 0,
        };
        let description = match &s.description {
            Some(d) => {
                let chars = chars_of(d.as_str());
                let t = trim_chars(&chars);
                let r = string_from(&t, 0, t.len());
                assert(t@.subrange(0, t@.len() as int) =~= t@);
                r
            },
            None => String::new(),
        };
        assert(db@.secrets[i as int] == s@);
        rows.push(SecretRow { id, name: s.name.clone(), description });
        i = i + 1;
    }
    rows
}

} // verus!
