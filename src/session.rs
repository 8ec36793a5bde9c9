//! Session tokens: a bearer value that stands in for the master password
//! until it expires or is ended.
//!
//! A token is `base64(id ++ seal(session_key, expire_time ++ master_key))`
//! with the unpadded standard alphabet; the 16-byte id and the session key
//! are stored in a session key record, the master key is not.
use vstd::prelude::*;
use vstd::slice::{slice_subrange, slice_to_vec};

use base64::Engine;

use crate::crypto::{self, opened, seals, Key, KEY_LEN};
use crate::error::VaultError;
use crate::store::{model_wf, session_ids_unique, Vault, VaultModel};
use crate::text::same_bytes;

verus! {

/// Length in bytes of a session id.
pub const SESSION_ID_LEN: usize = 16;

/// Length in bytes of the expiry time at the head of a sealed payload.
pub const TIME_LEN: usize = 8;

/// Session lifetime, in seconds, when none is configured: eight hours.
pub const DEFAULT_LIFETIME_SECS: i64 = 28800;

/// What a session key record holds.
pub ghost struct SessionModel {
    pub id: Seq<u8>,
    pub key: Seq<u8>,
    pub expire_time: i64,
}

/// The stored half of a session: its random id, the key that seals the
/// token's copy of the master key, and when it expires (Unix seconds).
#[derive(Debug)]
pub struct SessionKeyRecord {
    pub id: Vec<u8>,
    pub key: Vec<u8>,
    pub expire_time: i64,
}

impl View for SessionKeyRecord {
    type V = SessionModel;

    open spec fn view(&self) -> SessionModel {
        SessionModel { id: self.id@, key: self.key@, expire_time: self.expire_time }
    }
}

/// The base64 text (standard alphabet, no padding) of some bytes.
pub uninterp spec fn b64_text(bytes: Seq<u8>) -> Seq<char>;

/// The bytes that a base64 text (standard alphabet, no padding) decodes to,
/// or `None` when it is not such a text.
pub uninterp spec fn b64_bytes(text: Seq<char>) -> Option<Seq<u8>>;

/// Relies on base64's `STANDARD_NO_PAD` engine, `Engine::encode`: decoding
/// the text it gives yields the bytes back.
#[verifier::external_body]
fn b64_encode(bytes: &[u8]) -> (r: String)
    ensures
        r@ == b64_text(bytes@),
        b64_bytes(r@) == Some(bytes@),
{
    base64::engine::general_purpose::STANDARD_NO_PAD.encode(bytes)
}

/// Relies on base64's `STANDARD_NO_PAD` engine, `Engine::decode`:
/// deterministic in the text.
#[verifier::external_body]
fn b64_decode(text: &str) -> (r: Option<Vec<u8>>)
    ensures
        r matches Some(b) ==> b64_bytes(text@) == Some(b@),
        r is None ==> b64_bytes(text@) is None,
{
    base64::engine::general_purpose::STANDARD_NO_PAD.decode(text).ok()
}

/// Relies on uuid's `Uuid::new_v4` and `Uuid::as_bytes`: 16 random bytes.
#[verifier::external_body]
fn random_session_id() -> (r: Vec<u8>)
    ensures
        r@.len() == SESSION_ID_LEN,
{
    uuid::Uuid::new_v4().as_bytes().to_vec()
}

/// Relies on time's `OffsetDateTime::now_utc` and `unix_timestamp`: the
/// current time in Unix seconds.
#[verifier::external_body]
fn unix_now() -> (r: i64) {
    time::OffsetDateTime::now_utc().unix_timestamp()
}

/// The 8 big-endian bytes of a timestamp.
pub open spec fn be_bytes(t: i64) -> Seq<u8> {
    let u = t as u64;
    seq![
        (u >> 56u64) as u8,
        (u >> 48u64) as u8,
        (u >> 40u64) as u8,
        (u >> 32u64) as u8,
        (u >> 24u64) as u8,
        (u >> 16u64) as u8,
        (u >> 8u64) as u8,
        u as u8,
    ]
}

/// The timestamp that the first 8 bytes of `b` hold, big-endian.
pub open spec fn be_value(b: Seq<u8>) -> i64 {
    ((b[0] as u64) << 56u64 | (b[1] as u64) << 48u64 | (b[2] as u64) << 40u64 | (b[3] as u64)
        << 32u64 | (b[4] as u64) << 24u64 | (b[5] as u64) << 16u64 | (b[6] as u64) << 8u64 | (
    b[7] as u64)) as i64
}

/// Reading back the bytes of a timestamp gives the timestamp.
pub proof fn lemma_be_round_trip(t: i64)
    ensures
        be_value(be_bytes(t)) == t,
{
    let u = t as u64;
    assert((((u >> 56u64) as u8) as u64) << 56u64 | (((u >> 48u64) as u8) as u64) << 48u64 | (((u
        >> 40u64) as u8) as u64) << 40u64 | (((u >> 32u64) as u8) as u64) << 32u64 | (((u
        >> 24u64) as u8) as u64) << 24u64 | (((u >> 16u64) as u8) as u64) << 16u64 | (((u
        >> 8u64) as u8) as u64) << 8u64 | ((u as u8) as u64) == u) by (bit_vector);
    assert((t as u64) as i64 == t) by (bit_vector);
}

/// The big-endian bytes of a timestamp.
fn encode_time(t: i64) -> (r: Vec<u8>)
    ensures
        r@ == be_bytes(t),
{
    let u = t as u64;
    let mut r: Vec<u8> = Vec::new();
    r.push((u >> 56u64) as u8);
    r.push((u >> 48u64) as u8);
    r.push((u >> 40u64) as u8);
    r.push((u >> 32u64) as u8);
    r.push((u >> 24u64) as u8);
    r.push((u >> 16u64) as u8);
    r.push((u >> 8u64) as u8);
    r.push(u as u8);
    assert(r@ =~= be_bytes(t));
    r
}

/// The timestamp that the first 8 bytes of `b` hold.
fn decode_time(b: &[u8]) -> (r: i64)
    requires
        b@.len() >= TIME_LEN,
    ensures
        r == be_value(b@),
{
    ((b[0] as u64) << 56u64 | (b[1] as u64) << 48u64 | (b[2] as u64) << 40u64 | (b[3] as u64)
        << 32u64 | (b[4] as u64) << 24u64 | (b[5] as u64) << 16u64 | (b[6] as u64) << 8u64 | (
    b[7] as u64)) as i64
}

/// Some record of `s` has the id `id`.
pub open spec fn has_session(s: Seq<SessionModel>, id: Seq<u8>) -> bool {
    exists|i: int| 0 <= i < s.len() && #[trigger] s[i].id == id
}

/// The position of the record with id `id` in `s`.
pub open spec fn session_index(s: Seq<SessionModel>, id: Seq<u8>) -> int {
    choose|i: int| 0 <= i < s.len() && #[trigger] s[i].id == id
}

/// The records of `s` that have not expired at `now`, in order.
pub open spec fn unexpired(s: Seq<SessionModel>, now: i64) -> Seq<SessionModel>
    decreases s.len(),
{
    if s.len() == 0 {
        s
    } else if s.last().expire_time >= now {
        unexpired(s.drop_last(), now).push(s.last())
    } else {
        unexpired(s.drop_last(), now)
    }
}

/// The bytes that a token decodes to.
pub open spec fn token_bytes(token: Seq<char>) -> Seq<u8> {
    b64_bytes(token)->Some_0
}

/// The session id that a well-formed token carries.
pub open spec fn token_id(token: Seq<char>) -> Seq<u8> {
    token_bytes(token).take(SESSION_ID_LEN as int)
}

/// What redeeming `token` on `db` at time `now` gives: the master key, or
/// the error that stops it.
pub open spec fn redemption(db: VaultModel, token: Seq<char>, now: i64) -> Result<
    Seq<u8>,
    VaultError,
> {
    match b64_bytes(token) {
        None => Err(VaultError::InvalidSessionToken),
        Some(raw) => if raw.len() < SESSION_ID_LEN {
            Err(VaultError::InvalidSessionToken)
        } else {
            let id = raw.take(SESSION_ID_LEN as int);
            let payload = raw.skip(SESSION_ID_LEN as int);
            if !has_session(db.sessions, id) {
                Err(VaultError::InvalidSessionToken)
            } else {
                let rec = db.sessions[session_index(db.sessions, id)];
                match opened(rec.key, payload) {
                    None => Err(VaultError::InvalidSessionToken),
                    Some(p) => if p.len() < TIME_LEN {
                        Err(VaultError::InvalidSessionToken)
                    } else if be_value(p) < now {
                        Err(VaultError::SessionExpired)
                    } else if p.len() != TIME_LEN + KEY_LEN {
                        Err(VaultError::InvalidSessionToken)
                    } else {
                        Ok(p.skip(TIME_LEN as int))
                    },
                }
            }
        },
    }
}

/// The vault after redeeming `token` at time `now`: an expired session's
/// record is deleted; a successful redemption sweeps every expired record.
pub open spec fn after_redemption(db: VaultModel, token: Seq<char>, now: i64) -> VaultModel {
    match redemption(db, token, now) {
        Ok(_) => VaultModel { sessions: unexpired(db.sessions, now), ..db },
        Err(VaultError::SessionExpired) => VaultModel {
            sessions: db.sessions.remove(session_index(db.sessions, token_id(token))),
            ..db
        },
        Err(_) => db,
    }
}

/// What ending the session of `token` on `db` gives.
pub open spec fn ending(db: VaultModel, token: Seq<char>) -> Result<(), VaultError> {
    match b64_bytes(token) {
        None => Err(VaultError::InvalidSessionToken),
        Some(raw) => if raw.len() < SESSION_ID_LEN {
            Err(VaultError::InvalidSessionToken)
        } else if !has_session(db.sessions, token_id(token)) {
            Err(VaultError::NotFound)
        } else {
            Ok(())
        },
    }
}

/// `token` was issued on `before`, giving `after`: a record with the fresh
/// id `id`, the session key `key` and expiry `expire` was added, and the
/// token carries the id and a sealing under `key` of the expiry and the
/// master key.
pub open spec fn issued(
    before: VaultModel,
    after: VaultModel,
    token: Seq<char>,
    master: Seq<u8>,
    id: Seq<u8>,
    key: Seq<u8>,
    expire: i64,
) -> bool {
    &&& id.len() == SESSION_ID_LEN
    &&& master.len() == KEY_LEN
    &&& !has_session(before.sessions, id)
    &&& after == VaultModel {
        sessions: before.sessions.push(SessionModel { id, key, expire_time: expire }),
        ..before
    }
    &&& exists|c: Seq<u8>| #[trigger]
        b64_bytes(token) == Some(id + c) && seals(key, be_bytes(expire) + master, c)
}

/// Reading the first 8 bytes of `a + b`, where `a` has 8 bytes, reads `a`.
proof fn lemma_be_value_prefix(a: Seq<u8>, b: Seq<u8>)
    requires
        a.len() == TIME_LEN,
    ensures
        be_value(a + b) == be_value(a),
{
    let p = a + b;
    assert(p[0] == a[0] && p[1] == a[1] && p[2] == a[2] && p[3] == a[3]);
    assert(p[4] == a[4] && p[5] == a[5] && p[6] == a[6] && p[7] == a[7]);
}

/// Once the record at `i` is removed, no record has its id.
proof fn lemma_removed_id_absent(s: Seq<SessionModel>, i: int)
    requires
        session_ids_unique(s),
        0 <= i < s.len(),
    ensures
        !has_session(s.remove(i), s[i].id),
{
    let r = s.remove(i);
    if has_session(r, s[i].id) {
        let j = choose|j: int| 0 <= j < r.len() && #[trigger] r[j].id == s[i].id;
        let j0 = if j < i { j } else { j + 1 };
        assert(r[j] == s[j0]);
        assert(s[j0].id != s[i].id);
    }
}

/// What an issued token says: it decodes to the id and a payload that opens
/// under the session key, and the issued record is the one with that id.
proof fn lemma_issued_facts(
    before: VaultModel,
    after: VaultModel,
    token: Seq<char>,
    master: Seq<u8>,
    id: Seq<u8>,
    key: Seq<u8>,
    expire: i64,
) -> (c: Seq<u8>)
    requires
        model_wf(before),
        issued(before, after, token, master, id, key, expire),
    ensures
        b64_bytes(token) == Some(id + c),
        seals(key, be_bytes(expire) + master, c),
        (id + c).take(SESSION_ID_LEN as int) == id,
        (id + c).skip(SESSION_ID_LEN as int) == c,
        token_id(token) == id,
        has_session(after.sessions, id),
        session_index(after.sessions, id) == before.sessions.len(),
        after.sessions[before.sessions.len() as int].key == key,
        after.sessions.remove(before.sessions.len() as int) == before.sessions,
{
    let c = choose|c: Seq<u8>| #[trigger]
        b64_bytes(token) == Some(id + c) && seals(key, be_bytes(expire) + master, c);
    assert((id + c).take(SESSION_ID_LEN as int) =~= id);
    assert((id + c).skip(SESSION_ID_LEN as int) =~= c);
    let s = after.sessions;
    let n = before.sessions.len() as int;
    assert(s[n].id == id);
    let j = session_index(s, id);
    assert(0 <= j < s.len() && s[j].id == id);
    if j != n {
        assert(before.sessions[j].id == id);
        assert(has_session(before.sessions, id));
    }
    assert(s.remove(n) =~= before.sessions);
    c
}

/// A token redeemed before it expires gives back exactly the master key
/// that it was issued for.
pub proof fn lemma_issue_then_redeem(
    before: VaultModel,
    after: VaultModel,
    token: Seq<char>,
    master: Seq<u8>,
    id: Seq<u8>,
    key: Seq<u8>,
    expire: i64,
    now: i64,
)
    requires
        model_wf(before),
        issued(before, after, token, master, id, key, expire),
        now <= expire,
    ensures
        redemption(after, token, now) == Ok::<Seq<u8>, VaultError>(master),
{
    let c = lemma_issued_facts(before, after, token, master, id, key, expire);
    let p = be_bytes(expire) + master;
    lemma_be_round_trip(expire);
    lemma_be_value_prefix(be_bytes(expire), master);
    assert(p.skip(TIME_LEN as int) =~= master);
}

/// A token redeemed after it has expired fails with `SessionExpired`, and
/// since that deletes its record, redeeming it again at any time fails
/// with `InvalidSessionToken`.
pub proof fn lemma_expired_then_invalid(
    before: VaultModel,
    after: VaultModel,
    token: Seq<char>,
    master: Seq<u8>,
    id: Seq<u8>,
    key: Seq<u8>,
    expire: i64,
    now: i64,
    later: i64,
)
    requires
        model_wf(before),
        issued(before, after, token, master, id, key, expire),
        now > expire,
    ensures
        redemption(after, token, now) == Err::<Seq<u8>, VaultError>(VaultError::SessionExpired),
        redemption(after_redemption(after, token, now), token, later) == Err::<Seq<u8>, VaultError>(
            VaultError::InvalidSessionToken,
        ),
{
    let c = lemma_issued_facts(before, after, token, master, id, key, expire);
    lemma_be_round_trip(expire);
    lemma_be_value_prefix(be_bytes(expire), master);
    assert(!has_session(before.sessions, id));
}

/// Once a token's session has been ended, redeeming the token fails with
/// `InvalidSessionToken`.
pub proof fn lemma_ended_then_invalid(db: VaultModel, token: Seq<char>, now: i64)
    requires
        model_wf(db),
        ending(db, token) is Ok,
    ensures
        redemption(
            VaultModel {
                sessions: db.sessions.remove(session_index(db.sessions, token_id(token))),
                ..db
            },
            token,
            now,
        ) == Err::<Seq<u8>, VaultError>(VaultError::InvalidSessionToken),
{
    let id = token_id(token);
    let i = session_index(db.sessions, id);
    assert(0 <= i < db.sessions.len() && db.sessions[i].id == id);
    lemma_removed_id_absent(db.sessions, i);
}

/// The lifetime of a session, in seconds: the one given, or eight hours.
pub open spec fn lifetime_secs(lifetime: Option<i64>) -> int {
    match lifetime {
        Some(s) => s as int,
        None => DEFAULT_LIFETIME_SECS as int,
    }
}

/// When a session that starts at `now` and lasts `lifetime` seconds (eight
/// hours when `None`) expires; `None` when that time does not fit an `i64`.
pub fn expiry(now: i64, lifetime: Option<i64>) -> (r: Option<i64>)
    ensures
        match r {
            Some(t) => t == now + lifetime_secs(lifetime),
            None => !(i64::MIN <= now + lifetime_secs(lifetime) <= i64::MAX),
        },
{
    let secs = match lifetime {
        Some(s) => s,
        None => DEFAULT_LIFETIME_SECS,
    };
    now.checked_add(secs)
}

/// `token` was issued on `before`, giving `after`, by a session that
/// started at `start` and lasts `lifetime` seconds (eight hours when
/// `None`): some fresh id and session key were used, and the session expires
/// at `start` plus the lifetime.
pub open spec fn session_started(
    before: VaultModel,
    after: VaultModel,
    token: Seq<char>,
    master: Seq<u8>,
    lifetime: Option<i64>,
    start: i64,
) -> bool {
    &&& i64::MIN <= start + lifetime_secs(lifetime) <= i64::MAX
    &&& exists|id: Seq<u8>, key: Seq<u8>|
        #[trigger] issued(before, after, token, master, id, key, (start + lifetime_secs(lifetime)) as i64)
}

/// A token made by `new` and redeemed no later than its session's start
/// plus its lifetime gives back exactly the master key it was made for.
pub proof fn lemma_new_then_redeem(
    before: VaultModel,
    after: VaultModel,
    token: Seq<char>,
    master: Seq<u8>,
    lifetime: Option<i64>,
    start: i64,
    now: i64,
)
    requires
        model_wf(before),
        session_started(before, after, token, master, lifetime, start),
        now <= start + lifetime_secs(lifetime),
    ensures
        redemption(after, token, now) == Ok::<Seq<u8>, VaultError>(master),
{
    let expire = (start + lifetime_secs(lifetime)) as i64;
    let (id, key) = choose|id: Seq<u8>, key: Seq<u8>|
        #[trigger] issued(before, after, token, master, id, key, expire);
    lemma_issue_then_redeem(before, after, token, master, id, key, expire, now);
}

/// A token made by `new` and redeemed after its session's start plus its
/// lifetime fails with `SessionExpired`; that deletes its record, so
/// redeeming it again at any time fails with `InvalidSessionToken`.
pub proof fn lemma_new_expired_then_invalid(
    before: VaultModel,
    after: VaultModel,
    token: Seq<char>,
    master: Seq<u8>,
    lifetime: Option<i64>,
    start: i64,
    now: i64,
    later: i64,
)
    requires
        model_wf(before),
        session_started(before, after, token, master, lifetime, start),
        now > start + lifetime_secs(lifetime),
    ensures
        redemption(after, token, now) == Err::<Seq<u8>, VaultError>(VaultError::SessionExpired),
        redemption(after_redemption(after, token, now), token, later) == Err::<Seq<u8>, VaultError>(
            VaultError::InvalidSessionToken,
        ),
{
    let expire = (start + lifetime_secs(lifetime)) as i64;
    let (id, key) = choose|id: Seq<u8>, key: Seq<u8>|
        #[trigger] issued(before, after, token, master, id, key, expire);
    lemma_expired_then_invalid(before, after, token, master, id, key, expire, now, later);
}

/// A bearer token for one session.
pub struct SessionToken(String);

impl View for SessionToken {
    type V = Seq<char>;

    closed spec fn view(&self) -> Seq<char> {
        self.0@
    }
}

impl Vault {
    /// The position of the session record with id `id`.
    fn find_session(&self, id: &[u8]) -> (r: Option<usize>)
        requires
            self.wf(),
        ensures
            r is Some <==> has_session(self@.sessions, id@),
            r matches Some(i) ==> i == session_index(self@.sessions, id@) && i
                < self@.sessions.len(),
    {
        let mut i: usize = 0;
        while i < self.sessions.len()
            invariant
                self.wf(),
                i <= self@.sessions.len(),
                forall|j: int| 0 <= j < i ==> #[trigger] self@.sessions[j].id != id@,
            decreases self@.sessions.len() - i,
        {
            if same_bytes(self.sessions[i].id.as_slice(), id) {
                proof {
                    let s = self@.sessions;
                    assert(s[i as int].id == id@);
                    let j = session_index(s, id@);
                    assert(0 <= j < s.len() && s[j].id == id@);
                    assert(session_ids_unique(s));
                    if j != i as int {
                        assert(s[i as int].id != s[j].id);
                    }
                }
                return Some(i);
            }
            i = i + 1;
        }
        None
    }

    /// Deletes the session record at position `i`.
    fn delete_session(&mut self, i: usize)
        requires
            old(self).wf(),
            i < old(self)@.sessions.len(),
        ensures
            final(self).wf(),
            final(self)@ == (VaultModel { sessions: old(self)@.sessions.remove(i as int), ..old(self)@ }),
    {
        let ghost before = self@;
        let _ = self.sessions.remove(i);
        proof {
            assert(self@.sessions =~= before.sessions.remove(i as int));
            assert forall|a: int, b: int|
                0 <= a < self@.sessions.len() && 0 <= b < self@.sessions.len() && a != b
                implies #[trigger] self@.sessions[a].id != #[trigger] self@.sessions[b].id by {
                let a0 = if a < i { a } else { a + 1 };
                let b0 = if b < i { b } else { b + 1 };
                assert(before.sessions[a0].id != before.sessions[b0].id);
            }
        }
    }

    /// Deletes every session record that has expired at `now`.
    pub fn delete_expired(&mut self, now: i64)
        requires
            old(self).wf(),
        ensures
            final(self).wf(),
            final(self)@ == (VaultModel { sessions: unexpired(old(self)@.sessions, now), ..old(self)@ }),
    {
        let ghost s = self@.sessions;
        let mut kept: Vec<SessionKeyRecord> = Vec::new();
        let ghost mut from: Seq<int> = Seq::empty();
        let mut i: usize = 0;
        while i < self.sessions.len()
            invariant
                self.wf(),
                *self == *old(self),
                s == self@.sessions,
                i <= s.len(),
                kept@.map_values(|r: SessionKeyRecord| r@) == unexpired(s.take(i as int), now),
                from.len() == kept@.len(),
                forall|a: int|
                    0 <= a < from.len() ==> 0 <= #[trigger] from[a] < i && kept@[a]@ == s[from[a]],
                forall|a: int, b: int| 0 <= a < b < from.len() ==> #[trigger] from[a] < #[trigger] from[b],
            decreases s.len() - i,
        {
            assert(s.take(i + 1).drop_last() =~= s.take(i as int));
            assert(s.take(i + 1).last() == s[i as int]);
            if self.sessions[i].expire_time >= now {
                let rec = SessionKeyRecord {
                    id: self.sessions[i].id.clone(),
                    key: self.sessions[i].key.clone(),
                    expire_time: self.sessions[i].expire_time,
                };
                let ghost old_kept = kept@;
                kept.push(rec);
                proof {
                    from = from.push(i as int);
                    assert(kept@.map_values(|r: SessionKeyRecord| r@) =~= old_kept.map_values(
                        |r: SessionKeyRecord| r@,
                    ).push(s[i as int]));
                }
            }
            i = i + 1;
        }
        assert(s.take(s.len() as int) =~= s);
        let ghost before = self@;
        self.sessions = kept;
        proof {
            assert forall|a: int, b: int|
                0 <= a < self@.sessions.len() && 0 <= b < self@.sessions.len() && a != b
                implies #[trigger] self@.sessions[a].id != #[trigger] self@.sessions[b].id by {
                assert(kept@[a]@ == s[from[a]]);
                assert(kept@[b]@ == s[from[b]]);
                if a < b {
                    assert(from[a] < from[b]);
                } else {
                    assert(from[b] < from[a]);
                }
                assert(before.sessions[from[a]].id != before.sessions[from[b]].id);
            }
        }
    }
}

impl SessionToken {
    /// A token from its text, as the caller received it.
    pub fn from_string(text: String) -> (r: SessionToken)
        ensures
            r@ == text@,
    {
        SessionToken(text)
    }

    /// The token's text.
    pub fn as_str(&self) -> (r: &str)
        ensures
            r@ == self@,
    {
        self.0.as_str()
    }

    /// Issues a token for `master_key` with the given session id, session
    /// key and expiry, and stores the session's record. Fails with
    /// `StorageFailure`, changing nothing, if the id is already in use.
    pub fn issue_at(db: &mut Vault, master_key: &Key, session_id: Vec<u8>, session_key: Key, expire_time: i64) -> (r:
        Result<SessionToken, VaultError>)
        requires
            old(db).wf(),
            session_id@.len() == SESSION_ID_LEN,
        ensures
            final(db).wf(),
            r is Ok <==> !has_session(old(db)@.sessions, session_id@),
            r matches Err(e) ==> e == VaultError::StorageFailure && final(db)@ == old(db)@,
            r matches Ok(t) ==> issued(
                old(db)@,
                final(db)@,
                t@,
                master_key@,
                session_id@,
                session_key@,
                expire_time,
            ),
    {
        if db.find_session(session_id.as_slice()).is_some() {
            return Err(VaultError::StorageFailure);
        }
        let mut payload = encode_time(expire_time);
        let key_bytes = master_key.as_bytes();
        let mut i: usize = 0;
        while i < key_bytes.len()
            invariant
                key_bytes@.len() == KEY_LEN,
                i <= KEY_LEN,
                payload@ == be_bytes(expire_time) + key_bytes@.take(i as int),
            decreases KEY_LEN - i,
        {
            payload.push(key_bytes[i]);
            assert(key_bytes@.take(i + 1) =~= key_bytes@.take(i as int).push(key_bytes@[i as int]));
            i = i + 1;
        }
        assert(key_bytes@.take(KEY_LEN as int) =~= key_bytes@);
        let sealed = match crypto::encrypt(&session_key, payload.as_slice()) {
            Ok(c) => c,
            Err(e) => return Err(e),
        };
        let mut raw = session_id.clone();
        let mut j: usize = 0;
        while j < sealed.len()
            invariant
                j <= sealed@.len(),
                raw@ == session_id@ + sealed@.take(j as int),
            decreases sealed@.len() - j,
        {
            raw.push(sealed[j]);
            assert(sealed@.take(j + 1) =~= sealed@.take(j as int).push(sealed@[j as int]));
            j = j + 1;
        }
        assert(sealed@.take(sealed@.len() as int) =~= sealed@);
        let text = b64_encode(raw.as_slice());
        let ghost before = db@;
        let rec = SessionKeyRecord {
            id: session_id,
            key: session_key.as_bytes().clone(),
            expire_time,
        };
        db.sessions.push(rec);
        proof {
            let s = db@.sessions;
            assert(s =~= before.sessions.push(
                SessionModel { id: session_id@, key: session_key@, expire_time },
            ));
            let n = before.sessions.len() as int;
            assert forall|a: int, b: int|
                0 <= a < s.len() && 0 <= b < s.len() && a != b
                implies #[trigger] s[a].id != #[trigger] s[b].id by {
                if a == n {
                    assert(before.sessions[b].id != session_id@);
                } else if b == n {
                    assert(before.sessions[a].id != session_id@);
                }
            }
            assert(b64_bytes(text@) == Some(session_id@ + sealed@));
        }
        Ok(SessionToken(text))
    }

    /// Issues a token for `master_key` that expires `lifetime` seconds from
    /// now (eight hours when `None`), under a fresh random session id and
    /// session key.
    pub fn new(db: &mut Vault, derived_key: Key, lifetime: Option<i64>) -> (r: Result<
        SessionToken,
        VaultError,
    >)
        requires
            old(db).wf(),
        ensures
            final(db).wf(),
            r matches Err(e) ==> e == VaultError::StorageFailure && final(db)@ == old(db)@,
            r matches Ok(t) ==> exists|start: i64|
                #[trigger] session_started(old(db)@, final(db)@, t@, derived_key@, lifetime, start),
    {
        let now = unix_now();
        let expire_time = match expiry(now, lifetime) {
            Some(t) => t,
            None => return Err(VaultError::StorageFailure),
        };
        let session_id = random_session_id();
        let session_key = Key::generate();
        let ghost id = session_id@;
        let ghost key = session_key@;
        let ghost before = db@;
        let r = SessionToken::issue_at(db, &derived_key, session_id, session_key, expire_time);
        proof {
            if r is Ok {
                let tv = r->Ok_0@;
                assert(issued(before, db@, tv, derived_key@, id, key, expire_time));
                assert((now + lifetime_secs(lifetime)) as i64 == expire_time);
                assert(issued(
                    before,
                    db@,
                    tv,
                    derived_key@,
                    id,
                    key,
                    (now + lifetime_secs(lifetime)) as i64,
                ));
                assert(session_started(before, db@, tv, derived_key@, lifetime, now));
            }
        }
        r
    }

    /// Redeems the token at time `now` for the master key it carries. The
    /// record of an expired session is deleted; after a successful
    /// redemption every expired record is swept.
    pub fn redeem_at(&self, db: &mut Vault, now: i64) -> (r: Result<Key, VaultError>)
        requires
            old(db).wf(),
        ensures
            final(db).wf(),
            match r {
                Ok(k) => redemption(old(db)@, self@, now) == Ok::<Seq<u8>, VaultError>(k@),
                Err(e) => redemption(old(db)@, self@, now) == Err::<Seq<u8>, VaultError>(e),
            },
            final(db)@ == after_redemption(old(db)@, self@, now),
    {
        let raw = match b64_decode(self.0.as_str()) {
            Some(b) => b,
            None => return Err(VaultError::InvalidSessionToken),
        };
        if raw.len() < SESSION_ID_LEN {
            return Err(VaultError::InvalidSessionToken);
        }
        let id = slice_subrange(raw.as_slice(), 0, SESSION_ID_LEN);
        let sealed = slice_subrange(raw.as_slice(), SESSION_ID_LEN, raw.len());
        assert(id@ == raw@.take(SESSION_ID_LEN as int));
        assert(sealed@ == raw@.skip(SESSION_ID_LEN as int));
        let i = match db.find_session(id) {
            Some(i) => i,
            None => return Err(VaultError::InvalidSessionToken),
        };
        let payload = match crypto::aead_open(&db.sessions[i].key, sealed) {
            Some(p) => p,
            None => return Err(VaultError::InvalidSessionToken),
        };
        if payload.len() < TIME_LEN {
            return Err(VaultError::InvalidSessionToken);
        }
        let expire_time = decode_time(payload.as_slice());
        if expire_time < now {
            db.delete_session(i);
            return Err(VaultError::SessionExpired);
        }
        if payload.len() != TIME_LEN + KEY_LEN {
            return Err(VaultError::InvalidSessionToken);
        }
        let key_bytes = slice_to_vec(slice_subrange(payload.as_slice(), TIME_LEN, payload.len()));
        db.delete_expired(now);
        match Key::from_bytes(key_bytes) {
            Some(k) => Ok(k),
            None => Err(VaultError::InvalidSessionToken),
        }
    }

    /// Redeems the token now for the master key it carries.
    pub fn into_derived_key(self, db: &mut Vault) -> (r: Result<Key, VaultError>)
        requires
            old(db).wf(),
        ensures
            final(db).wf(),
            exists|now: i64|
                {
                    &&& final(db)@ == after_redemption(old(db)@, self@, now)
                    &&& match r {
                        Ok(k) => redemption(old(db)@, self@, now) == Ok::<Seq<u8>, VaultError>(k@),
                        Err(e) => redemption(old(db)@, self@, now) == Err::<Seq<u8>, VaultError>(e),
                    }
                },
    {
        let now = unix_now();
        self.redeem_at(db, now)
    }

    /// Ends the token's session by deleting its record.
    pub fn end(&self, db: &mut Vault) -> (r: Result<(), VaultError>)
        requires
            old(db).wf(),
        ensures
            final(db).wf(),
            r == ending(old(db)@, self@),
            r is Err ==> final(db)@ == old(db)@,
            r is Ok ==> final(db)@ == (VaultModel {
                sessions: old(db)@.sessions.remove(
                    session_index(old(db)@.sessions, token_id(self@)),
                ),
                ..old(db)@
            }),
    {
        let raw = match b64_decode(self.0.as_str()) {
            Some(b) => b,
            None => return Err(VaultError::InvalidSessionToken),
        };
        if raw.len() < SESSION_ID_LEN {
            return Err(VaultError::InvalidSessionToken);
        }
        let id = slice_subrange(raw.as_slice(), 0, SESSION_ID_LEN);
        assert(id@ == raw@.take(SESSION_ID_LEN as int));
        match db.find_session(id) {
            Some(i) => {
                db.delete_session(i);
                Ok(())
            },
            None => Err(VaultError::NotFound),
        }
    }
}

} // verus!
