//! The vault's records: the single user, the secrets and the session keys.
//!
//! `Vault` is the storage medium that the operations work on. It keeps the
//! rules that the persisted tables keep: secret names and ids are unique, a
//! new secret gets a fresh id, session ids are unique and the user is the
//! single row with id 1.
use vstd::prelude::*;

use crate::error::VaultError;
use crate::secret::{opt_text, Secret, SecretModel};
use crate::session::{SessionKeyRecord, SessionModel};
use crate::text::same_bytes;
use crate::user::{User, UserModel};

verus! {

/// What a vault holds.
pub ghost struct VaultModel {
    pub user: Option<UserModel>,
    pub secrets: Seq<SecretModel>,
    pub sessions: Seq<SessionModel>,
    pub next_id: i64,
}

/// Some secret in `s` is named `name`.
pub open spec fn has_name(s: Seq<SecretModel>, name: Seq<char>) -> bool {
    exists|i: int| 0 <= i < s.len() && #[trigger] s[i].name == name
}

/// The position of the secret named `name` in `s`.
pub open spec fn index_of_name(s: Seq<SecretModel>, name: Seq<char>) -> int {
    choose|i: int| 0 <= i < s.len() && #[trigger] s[i].name == name
}

/// Some secret in `s` has the id `id`.
pub open spec fn has_id(s: Seq<SecretModel>, id: i64) -> bool {
    exists|i: int| 0 <= i < s.len() && #[trigger] s[i].id == Some(id)
}

/// The position of the secret with id `id` in `s`.
pub open spec fn index_of_id(s: Seq<SecretModel>, id: i64) -> int {
    choose|i: int| 0 <= i < s.len() && #[trigger] s[i].id == Some(id)
}

/// No two secrets of `s` share a name.
pub open spec fn names_unique(s: Seq<SecretModel>) -> bool {
    forall|i: int, j: int|
        0 <= i < s.len() && 0 <= j < s.len() && i != j ==> #[trigger] s[i].name != #[trigger] s[j].name
}

/// Every secret of `s` has an id in `1..next_id`, and no two share one.
pub open spec fn ids_valid(s: Seq<SecretModel>, next_id: i64) -> bool {
    &&& forall|i: int|
        0 <= i < s.len() ==> (#[trigger] s[i].id matches Some(x) && 1 <= x < next_id)
    &&& forall|i: int, j: int|
        0 <= i < s.len() && 0 <= j < s.len() && i != j ==> #[trigger] s[i].id != #[trigger] s[j].id
}

/// No two session records share an id.
pub open spec fn session_ids_unique(s: Seq<SessionModel>) -> bool {
    forall|i: int, j: int|
        0 <= i < s.len() && 0 <= j < s.len() && i != j ==> #[trigger] s[i].id != #[trigger] s[j].id
}

/// The rules that every vault keeps.
pub open spec fn model_wf(m: VaultModel) -> bool {
    &&& 1 <= m.next_id
    &&& names_unique(m.secrets)
    &&& ids_valid(m.secrets, m.next_id)
    &&& session_ids_unique(m.sessions)
    &&& m.user matches Some(u) ==> u.id == 1
}

/// The records of one vault.
pub struct Vault {
    pub user: Option<User>,
    pub secrets: Vec<Secret>,
    pub sessions: Vec<SessionKeyRecord>,
    pub next_id: i64,
}

impl View for Vault {
    type V = VaultModel;

    open spec fn view(&self) -> VaultModel {
        VaultModel {
            user: match self.user {
                Some(u) => Some(u@),
                None => None,
            },
            secrets: self.secrets@.map_values(|s: Secret| s@),
            sessions: self.sessions@.map_values(|s: SessionKeyRecord| s@),
            next_id: self.next_id,
        }
    }
}

impl Vault {
    /// The vault keeps its rules.
    pub open spec fn wf(&self) -> bool {
        model_wf(self@)
    }

    /// An empty vault, with no user yet.
    pub fn new() -> (r: Vault)
        ensures
            r.wf(),
            r@.user is None,
            r@.secrets.len() == 0,
            r@.sessions.len() == 0,
            r@.next_id == 1,
    {
        let r = Vault { user: None, secrets: Vec::new(), sessions: Vec::new(), next_id: 1 };
        assert(r@.secrets.len() == 0);
        r
    }

    /// The position of the secret named `name`.
    pub(crate) fn find(&self, name: &str) -> (r: Option<usize>)
        requires
            self.wf(),
        ensures
            r is Some <==> has_name(self@.secrets, name@),
            r matches Some(i) ==> i == index_of_name(self@.secrets, name@) && i
                < self@.secrets.len(),
    {
        let key = name.to_owned();
        let mut i: usize = 0;
        while i < self.secrets.len()
            invariant
                self.wf(),
                i <= self.secrets@.len(),
                key@ == name@,
                forall|j: int| 0 <= j < i ==> #[trigger] self@.secrets[j].name != name@,
            decreases self.secrets@.len() - i,
        {
            if self.secrets[i].name == key {
                proof {
                    let s = self@.secrets;
                    assert(s[i as int].name == name@);
                    let j = index_of_name(s, name@);
                    assert(0 <= j < s.len() && s[j].name == name@);
                    assert(names_unique(s));
                    if j != i as int {
                        assert(s[i as int].name != s[j].name);
                    }
                }
                return Some(i);
            }
            i = i + 1;
        }
        None
    }

    /// The position of the secret with id `id`.
    pub(crate) fn find_id(&self, id: i64) -> (r: Option<usize>)
        requires
            self.wf(),
        ensures
            r is Some <==> has_id(self@.secrets, id),
            r matches Some(i) ==> i == index_of_id(self@.secrets, id) && i < self@.secrets.len(),
    {
        let mut i: usize = 0;
        while i < self.secrets.len()
            invariant
                self.wf(),
                i <= self.secrets@.len(),
                forall|j: int| 0 <= j < i ==> #[trigger] self@.secrets[j].id != Some(id),
            decreases self.secrets@.len() - i,
        {
            match self.secrets[i].id {
                Some(x) => {
                    if x == id {
                        proof {
                            let s = self@.secrets;
                            assert(s[i as int].id == Some(id));
                            let j = index_of_id(s, id);
                            assert(0 <= j < s.len() && s[j].id == Some(id));
                            assert(ids_valid(s, self.next_id));
                            if j != i as int {
                                assert(s[i as int].id != s[j].id);
                            }
                        }
                        return Some(i);
                    }
                },
                None => {},
            }
            i = i + 1;
        }
        None
    }
    /// Replaces the value of the secret at position `i`.
    pub(crate) fn set_value(&mut self, i: usize, value: Vec<u8>)
        requires
            old(self).wf(),
            i < old(self)@.secrets.len(),
        ensures
            final(self).wf(),
            final(self)@ == (VaultModel {
                secrets: old(self)@.secrets.update(
                    i as int,
                    SecretModel { value: value@, ..old(self)@.secrets[i as int] },
                ),
                ..old(self)@
            }),
    {
        let ghost before = self@;
        let mut s = self.secrets[i].duplicate();
        s.value = value;
        self.secrets.set(i, s);
        proof {
            assert(self@.secrets =~= before.secrets.update(
                i as int,
                SecretModel { value: value@, ..before.secrets[i as int] },
            ));
            lemma_same_keys_wf(before, self@);
        }
    }

    /// Replaces the description of the secret at position `i`.
    pub(crate) fn set_description(&mut self, i: usize, description: Option<String>)
        requires
            old(self).wf(),
            i < old(self)@.secrets.len(),
        ensures
            final(self).wf(),
            final(self)@ == (VaultModel {
                secrets: old(self)@.secrets.update(
                    i as int,
                    SecretModel { description: opt_text(description), ..old(self)@.secrets[i as int] },
                ),
                ..old(self)@
            }),
    {
        let ghost before = self@;
        let ghost d = opt_text(description);
        let mut s = self.secrets[i].duplicate();
        s.description = description;
        self.secrets.set(i, s);
        proof {
            assert(self@.secrets =~= before.secrets.update(
                i as int,
                SecretModel { description: d, ..before.secrets[i as int] },
            ));
            lemma_same_keys_wf(before, self@);
        }
    }
}

/// A vault whose secrets keep their names and ids, in the same places,
/// keeps the vault's rules.
proof fn lemma_same_keys_wf(before: VaultModel, after: VaultModel)
    requires
        model_wf(before),
        after.user == before.user,
        after.sessions == before.sessions,
        after.next_id == before.next_id,
        after.secrets.len() == before.secrets.len(),
        forall|i: int|
            0 <= i < before.secrets.len() ==> (#[trigger] after.secrets[i]).name
                == before.secrets[i].name && after.secrets[i].id == before.secrets[i].id,
    ensures
        model_wf(after),
{
    let s = after.secrets;
    assert forall|a: int, b: int| 0 <= a < s.len() && 0 <= b < s.len() && a != b
        implies #[trigger] s[a].name != #[trigger] s[b].name by {
        assert(s[a].name == before.secrets[a].name);
        assert(s[b].name == before.secrets[b].name);
    }
    assert forall|a: int, b: int| 0 <= a < s.len() && 0 <= b < s.len() && a != b
        implies #[trigger] s[a].id != #[trigger] s[b].id by {
        assert(s[a].id == before.secrets[a].id);
        assert(s[b].id == before.secrets[b].id);
    }
    assert forall|a: int| 0 <= a < s.len()
        implies (#[trigger] s[a].id matches Some(x) && 1 <= x < after.next_id) by {
        assert(s[a].id == before.secrets[a].id);
    }
}

/// Records that a vault can be made of: the user, if any, has id 1; every
/// secret has an id below `i64::MAX`; secret names, secret ids and session
/// ids are each unique.
pub open spec fn records_valid(
    user: Option<UserModel>,
    secrets: Seq<SecretModel>,
    sessions: Seq<SessionModel>,
) -> bool {
    &&& user matches Some(u) ==> u.id == 1
    &&& names_unique(secrets)
    &&& ids_valid(secrets, i64::MAX)
    &&& session_ids_unique(sessions)
}

/// Whether no two secrets of `v` share a name or an id, and every id is in
/// `1..i64::MAX`.
fn secrets_valid(v: &Vec<Secret>) -> (r: bool)
    ensures
        r == (names_unique(v@.map_values(|s: Secret| s@)) && ids_valid(
            v@.map_values(|s: Secret| s@),
            i64::MAX,
        )),
{
    let ghost m = v@.map_values(|s: Secret| s@);
    let n = v.len();
    let mut i: usize = 0;
    while i < n
        invariant
            n == v@.len(),
            m == v@.map_values(|s: Secret| s@),
            i <= n,
            forall|a: int| 0 <= a < i ==> (#[trigger] m[a].id matches Some(x) && 1 <= x < i64::MAX),
            forall|a: int, b: int|
                0 <= a < i && 0 <= b < n && a != b ==> #[trigger] m[a].name != #[trigger] m[b].name
                    && m[a].id != m[b].id,
        decreases n - i,
    {
        match v[i].id {
            Some(x) => {
                if x < 1 || x == i64::MAX {
                    assert(!ids_valid(m, i64::MAX) || !(m[i as int].id matches Some(y) && 1 <= y < i64::MAX));
                    return false;
                }
            },
            None => {
                assert(!(m[i as int].id matches Some(y) && 1 <= y < i64::MAX));
                return false;
            },
        }
        let mut j: usize = 0;
        while j < n
            invariant
                n == v@.len(),
                m == v@.map_values(|s: Secret| s@),
                i < n,
                j <= n,
                forall|a: int| 0 <= a < i ==> (#[trigger] m[a].id matches Some(x) && 1 <= x < i64::MAX),
                forall|a: int, b: int|
                    0 <= a < i && 0 <= b < n && a != b ==> #[trigger] m[a].name != #[trigger] m[b].name
                        && m[a].id != m[b].id,
                forall|b: int| 0 <= b < j && b != i ==> #[trigger] m[b].name != m[i as int].name
                    && m[b].id != m[i as int].id,
            decreases n - j,
        {
            if j != i {
                assert(m[i as int] == v@[i as int]@ && m[j as int] == v@[j as int]@);
                if v[i].name == v[j].name {
                    assert(m[i as int].name == m[j as int].name);
                    return false;
                }
                let same_id = match (v[i].id, v[j].id) {
                    (Some(a), Some(b)) => a == b,
                    (None, None) => true,
                    _ => false,
                };
                if same_id {
                    assert(m[i as int].id == m[j as int].id);
                    return false;
                }
                assert(m[j as int].name != m[i as int].name && m[j as int].id != m[i as int].id);
            }
            assert forall|b: int| 0 <= b < j + 1 && b != i implies #[trigger] m[b].name != m[i as int].name
                && m[b].id != m[i as int].id by {
                if b < j as int {
                    assert(m[b].name != m[i as int].name);
                } else {
                    assert(b == j as int);
                }
            }
            j = j + 1;
        }
        assert(m[i as int].id matches Some(x) && 1 <= x < i64::MAX);
        assert forall|a: int, b: int|
            0 <= a < i + 1 && 0 <= b < n && a != b implies #[trigger] m[a].name != #[trigger] m[b].name
                && m[a].id != m[b].id by {
            if a == i as int {
                assert(m[b].name != m[i as int].name && m[b].id != m[i as int].id);
            }
        }
        i = i + 1;
    }
    assert forall|a: int, b: int| 0 <= a < m.len() && 0 <= b < m.len() && a != b
        implies #[trigger] m[a].name != #[trigger] m[b].name by {}
    assert forall|a: int, b: int| 0 <= a < m.len() && 0 <= b < m.len() && a != b
        implies #[trigger] m[a].id != #[trigger] m[b].id by {
        assert(m[a].name != m[b].name);
    }
    true
}

/// Whether no two session records of `v` share an id.
fn session_records_valid(v: &Vec<SessionKeyRecord>) -> (r: bool)
    ensures
        r == session_ids_unique(v@.map_values(|s: SessionKeyRecord| s@)),
{
    let ghost m = v@.map_values(|s: SessionKeyRecord| s@);
    let n = v.len();
    let mut i: usize = 0;
    while i < n
        invariant
            n == v@.len(),
            m == v@.map_values(|s: SessionKeyRecord| s@),
            i <= n,
            forall|a: int, b: int|
                0 <= a < i && 0 <= b < n && a != b ==> #[trigger] m[a].id != #[trigger] m[b].id,
        decreases n - i,
    {
        let mut j: usize = 0;
        while j < n
            invariant
                n == v@.len(),
                m == v@.map_values(|s: SessionKeyRecord| s@),
                i < n,
                j <= n,
                forall|a: int, b: int|
                    0 <= a < i && 0 <= b < n && a != b ==> #[trigger] m[a].id != #[trigger] m[b].id,
                forall|b: int| 0 <= b < j && b != i ==> #[trigger] m[b].id != m[i as int].id,
            decreases n - j,
        {
            if j != i {
                assert(m[i as int] == v@[i as int]@ && m[j as int] == v@[j as int]@);
                if same_bytes(v[i].id.as_slice(), v[j].id.as_slice()) {
                    assert(m[i as int].id == m[j as int].id);
                    return false;
                }
            }
            j = j + 1;
        }
        assert forall|a: int, b: int|
            0 <= a < i + 1 && 0 <= b < n && a != b implies #[trigger] m[a].id != #[trigger] m[b].id by {
            if a == i as int {
                assert(m[b].id != m[i as int].id);
            }
        }
        i = i + 1;
    }
    assert forall|a: int, b: int| 0 <= a < m.len() && 0 <= b < m.len() && a != b
        implies #[trigger] m[a].id != #[trigger] m[b].id by {}
    true
}

impl Vault {
    /// A vault made of stored records, checked against the vault's rules.
    /// New secrets get ids above the largest one present.
    pub fn from_records(
        user: Option<User>,
        secrets: Vec<Secret>,
        sessions: Vec<SessionKeyRecord>,
    ) -> (r: Result<Vault, VaultError>)
        ensures
            r is Ok <==> records_valid(
                match user {
                    Some(u) => Some(u@),
                    None => None,
                },
                secrets@.map_values(|s: Secret| s@),
                sessions@.map_values(|s: SessionKeyRecord| s@),
            ),
            r matches Err(e) ==> e == VaultError::StorageFailure,
            r matches Ok(v) ==> v.wf() && v@.user == (match user {
                Some(u) => Some(u@),
                None => None,
            }) && v@.secrets == secrets@.map_values(|s: Secret| s@) && v@.sessions
                == sessions@.map_values(|s: SessionKeyRecord| s@),
    {
        let user_ok = match &user {
            Some(u) => u.id == 1,
            None => true,
        };
        if !user_ok || !secrets_valid(&secrets) || !session_records_valid(&sessions) {
            return Err(VaultError::StorageFailure);
        }
        let ghost m = secrets@.map_values(|s: Secret| s@);
        let mut next_id: i64 = 1;
        let mut i: usize = 0;
        while i < secrets.len()
            invariant
                m == secrets@.map_values(|s: Secret| s@),
                ids_valid(m, i64::MAX),
                i <= m.len(),
                1 <= next_id <= i64::MAX,
                forall|a: int| 0 <= a < i ==> (#[trigger] m[a].id matches Some(x) && x < next_id),
            decreases m.len() - i,
        {
            match secrets[i].id {
                Some(x) => {
                    assert(m[i as int].id == Some(x));
                    if x >= next_id {
                        next_id = x + 1;
                    }
                },
                None => {
                    assert(m[i as int].id is Some);
                },
            }
            i = i + 1;
        }
        Ok(Vault { user, secrets, sessions, next_id })
    }
}

} // verus!
