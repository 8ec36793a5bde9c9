//! Changing the master password: every secret is re-sealed under the key of
//! the new password, and the user record is rewritten, all or nothing.
use vstd::prelude::*;

use crate::crypto::{self, kdf_output, password_matches, usable_password, Key, SALT_LEN};
use crate::error::VaultError;
use crate::secret::{cleartext_of, Secret, SecretModel};
use crate::store::{Vault, VaultModel};
use crate::user::User;

verus! {

/// The first reason why the secrets `s`, sealed under `k`, cannot all be
/// re-sealed, or `None` when they can.
pub open spec fn reencryption_error(s: Seq<SecretModel>, k: Seq<u8>) -> Option<VaultError>
    decreases s.len(),
{
    if s.len() == 0 {
        None
    } else {
        match cleartext_of(k, s[0].value) {
            Err(e) => Some(e),
            Ok(t) => if t.len() == 0 {
                Some(VaultError::EncryptionFailed)
            } else {
                reencryption_error(s.drop_first(), k)
            },
        }
    }
}

/// Why a password change on `db`, whose secrets are sealed under `k`, fails,
/// or `None` when it succeeds.
pub open spec fn rotation_error(db: VaultModel, k: Seq<u8>, new_password: &str) -> Option<
    VaultError,
> {
    if !usable_password(new_password) {
        Some(VaultError::InvalidPassword)
    } else if db.user is None {
        Some(VaultError::NotFound)
    } else {
        reencryption_error(db.secrets, k)
    }
}

/// `after` is `before` with the password changed to `new_password`: the user
/// record verifies the new password and its salt gives `new_key`, and every
/// secret keeps its id, name, description and cleartext, now sealed under
/// `new_key` instead of `old_key`.
pub open spec fn rotated(
    before: VaultModel,
    after: VaultModel,
    old_key: Seq<u8>,
    new_key: Seq<u8>,
    new_password: &str,
) -> bool {
    &&& after.user matches Some(u) && u.id == 1 && u.salt.len() == SALT_LEN && password_matches(
        new_password@,
        u.hash,
    ) && new_key == kdf_output(new_password@, u.salt)
    &&& after.sessions == before.sessions
    &&& after.next_id == before.next_id
    &&& after.secrets.len() == before.secrets.len()
    &&& forall|i: int|
        0 <= i < before.secrets.len() ==> {
            &&& (#[trigger] after.secrets[i]).id == before.secrets[i].id
            &&& after.secrets[i].name == before.secrets[i].name
            &&& after.secrets[i].description == before.secrets[i].description
            &&& cleartext_of(old_key, before.secrets[i].value) is Ok
            &&& cleartext_of(new_key, after.secrets[i].value) == cleartext_of(
                old_key,
                before.secrets[i].value,
            )
        }
}

/// After a password change the new password authenticates, and every
/// secret opens under the new key to the cleartext it had under the old one.
pub proof fn lemma_rotation_preserves_cleartexts(
    before: VaultModel,
    after: VaultModel,
    old_key: Seq<u8>,
    new_key: Seq<u8>,
    new_password: &str,
    i: int,
)
    requires
        rotated(before, after, old_key, new_key, new_password),
        0 <= i < before.secrets.len(),
    ensures
        after.user matches Some(u) && password_matches(new_password@, u.hash),
        cleartext_of(new_key, after.secrets[i].value) == cleartext_of(
            old_key,
            before.secrets[i].value,
        ),
        cleartext_of(new_key, after.secrets[i].value) is Ok,
{
    assert(after.secrets[i].id == before.secrets[i].id);
}

/// Changes the master password. `master_key` is the key of the current
/// password; the key of the new one is returned. If the new password cannot
/// be used, the vault has no user, or any secret fails to open or to
/// re-seal, nothing changes.
pub fn change_password(db: &mut Vault, master_key: &Key, new_password: &str) -> (r: Result<
    Key,
    VaultError,
>)
    requires
        old(db).wf(),
    ensures
        final(db).wf(),
        r is Ok <==> rotation_error(old(db)@, master_key@, new_password) is None,
        r matches Err(e) ==> final(db)@ == old(db)@ && rotation_error(
            old(db)@,
            master_key@,
            new_password,
        ) == Some(e),
        r matches Ok(k) ==> rotated(old(db)@, final(db)@, master_key@, k@, new_password),
{
    let new_hash = crypto::hash_password(new_password)?;
    let new_salt = crypto::generate_salt();
    if db.user.is_none() {
        return Err(VaultError::NotFound);
    }
    let new_key = match crypto::derive_key(new_password, new_salt.as_slice()) {
        Ok(k) => k,
        Err(e) => return Err(e),
    };
    let ghost s = db@.secrets;
    let mut resealed: Vec<Secret> = Vec::new();
    let mut i: usize = 0;
    assert(s.skip(0) =~= s);
    while i < db.secrets.len()
        invariant
            db.wf(),
            *db == *old(db),
            s == db@.secrets,
            usable_password(new_password),
            db@.user is Some,
            i <= s.len(),
            resealed@.len() == i,
            new_key@ == kdf_output(new_password@, new_salt@),
            reencryption_error(s, master_key@) == reencryption_error(s.skip(i as int), master_key@),
            forall|j: int|
                0 <= j < i ==> {
                    &&& (#[trigger] resealed@[j]@).id == s[j].id
                    &&& resealed@[j]@.name == s[j].name
                    &&& resealed@[j]@.description == s[j].description
                    &&& cleartext_of(master_key@, s[j].value) is Ok
                    &&& cleartext_of(new_key@, resealed@[j]@.value) == cleartext_of(
                        master_key@,
                        s[j].value,
                    )
                },
        decreases s.len() - i,
    {
        proof {
            let rest = s.skip(i as int);
            assert(rest[0] == s[i as int]);
            assert(db.secrets@[i as int]@ == s[i as int]);
            assert(rest.drop_first() =~= s.skip(i + 1));
        }
        let clear = match db.secrets[i].to_cleartext(master_key) {
            Ok(c) => c,
            Err(e) => return Err(e),
        };
        let sealed = match clear.to_encrypted(&new_key) {
            Ok(x) => x,
            Err(e) => return Err(e),
        };
        proof {
            crate::secret::lemma_cleartext_round_trip(new_key@, clear.value@, sealed.value@);
        }
        resealed.push(sealed);
        i = i + 1;
    }
    let ghost before = db@;
    db.user = Some(User { id: 1, master_password_hash: new_hash, salt: new_salt });
    db.secrets = resealed;
    proof {
        assert(forall|j: int| 0 <= j < s.len() ==> #[trigger] db@.secrets[j] == resealed@[j]@);
        assert forall|a: int, b: int|
            0 <= a < db@.secrets.len() && 0 <= b < db@.secrets.len() && a != b
            implies #[trigger] db@.secrets[a].name != #[trigger] db@.secrets[b].name by {
            assert(resealed@[a]@.name == s[a].name);
            assert(resealed@[b]@.name == s[b].name);
        }
        assert forall|a: int, b: int|
            0 <= a < db@.secrets.len() && 0 <= b < db@.secrets.len() && a != b
            implies #[trigger] db@.secrets[a].id != #[trigger] db@.secrets[b].id by {
            assert(resealed@[a]@.id == s[a].id);
            assert(resealed@[b]@.id == s[b].id);
        }
        assert forall|a: int| 0 <= a < db@.secrets.len()
            implies (#[trigger] db@.secrets[a].id matches Some(x) && 1 <= x < db@.next_id) by {
            assert(resealed@[a]@.id == s[a].id);
            assert(s[a].id matches Some(x) && 1 <= x < before.next_id);
        }
        assert(s.skip(s.len() as int).len() == 0);
    }
    Ok(new_key)
}

} // verus!
