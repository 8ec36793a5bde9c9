use rudric::crypto::Key;
use rudric::error::VaultError;
use rudric::session::{expiry, SessionToken};
use rudric::store::Vault;

fn fixed_key(b: u8) -> Key {
    Key::from_bytes(vec![b; 32]).unwrap()
}

#[test]
fn issue_then_redeem_returns_master_key() {
    let mut db = Vault::new();
    let master = fixed_key(7);
    let token = SessionToken::issue_at(&mut db, &master, vec![1; 16], fixed_key(9), 1_000).unwrap();
    assert_eq!(db.sessions.len(), 1);
    assert_eq!(db.sessions[0].expire_time, 1_000);
    assert!(!token.as_str().contains('='));
    let k = token.redeem_at(&mut db, 999).unwrap();
    assert_eq!(k.as_bytes(), master.as_bytes());
    let k = token.redeem_at(&mut db, 1_000).unwrap();
    assert_eq!(k.as_bytes(), master.as_bytes());
}

#[test]
fn expired_token_fails_then_is_invalid() {
    let mut db = Vault::new();
    let master = fixed_key(7);
    let token = SessionToken::issue_at(&mut db, &master, vec![1; 16], fixed_key(9), 1_001).unwrap();
    assert_eq!(token.redeem_at(&mut db, 1_002).err(), Some(VaultError::SessionExpired));
    assert!(db.sessions.is_empty());
    assert_eq!(token.redeem_at(&mut db, 1_000).err(), Some(VaultError::InvalidSessionToken));
}

#[test]
fn ended_session_token_is_invalid() {
    let mut db = Vault::new();
    let token = SessionToken::issue_at(&mut db, &fixed_key(7), vec![2; 16], fixed_key(9), 5_000).unwrap();
    token.end(&mut db).unwrap();
    assert_eq!(token.redeem_at(&mut db, 10).err(), Some(VaultError::InvalidSessionToken));
    assert_eq!(token.end(&mut db), Err(VaultError::NotFound));
}

#[test]
fn malformed_tokens_are_invalid() {
    let mut db = Vault::new();
    let bad = SessionToken::from_string("!!!".to_string());
    assert_eq!(bad.redeem_at(&mut db, 0).err(), Some(VaultError::InvalidSessionToken));
    assert_eq!(bad.end(&mut db), Err(VaultError::InvalidSessionToken));
    let short = SessionToken::from_string("AAAA".to_string());
    assert_eq!(short.redeem_at(&mut db, 0).err(), Some(VaultError::InvalidSessionToken));
    let unknown = SessionToken::from_string("AAAAAAAAAAAAAAAAAAAAAAAAAAAAAAAAAAAA".to_string());
    assert_eq!(unknown.redeem_at(&mut db, 0).err(), Some(VaultError::InvalidSessionToken));
}

#[test]
fn tampered_token_is_invalid() {
    let mut db = Vault::new();
    let token = SessionToken::issue_at(&mut db, &fixed_key(7), vec![3; 16], fixed_key(9), 5_000).unwrap();
    let mut text = token.as_str().to_string();
    let last = text.pop().unwrap();
    text.push(if last == 'A' { 'B' } else { 'A' });
    let forged = SessionToken::from_string(text);
    assert_eq!(forged.redeem_at(&mut db, 0).err(), Some(VaultError::InvalidSessionToken));
    assert_eq!(db.sessions.len(), 1);
}

#[test]
fn duplicate_session_id_is_refused() {
    let mut db = Vault::new();
    SessionToken::issue_at(&mut db, &fixed_key(7), vec![4; 16], fixed_key(9), 5_000).unwrap();
    let again = SessionToken::issue_at(&mut db, &fixed_key(7), vec![4; 16], fixed_key(8), 5_000);
    assert_eq!(again.err(), Some(VaultError::StorageFailure));
    assert_eq!(db.sessions.len(), 1);
}

#[test]
fn redeeming_sweeps_expired_records() {
    let mut db = Vault::new();
    SessionToken::issue_at(&mut db, &fixed_key(7), vec![5; 16], fixed_key(9), 10).unwrap();
    let live = SessionToken::issue_at(&mut db, &fixed_key(7), vec![6; 16], fixed_key(9), 100).unwrap();
    live.redeem_at(&mut db, 50).unwrap();
    assert_eq!(db.sessions.len(), 1);
    assert_eq!(db.sessions[0].id, vec![6; 16]);
}

#[test]
fn delete_expired_keeps_live_records() {
    let mut db = Vault::new();
    SessionToken::issue_at(&mut db, &fixed_key(7), vec![5; 16], fixed_key(9), 10).unwrap();
    SessionToken::issue_at(&mut db, &fixed_key(7), vec![6; 16], fixed_key(9), 20).unwrap();
    db.delete_expired(20);
    assert_eq!(db.sessions.len(), 1);
    assert_eq!(db.sessions[0].expire_time, 20);
}

#[test]
fn new_token_with_clock_redeems() {
    let mut db = Vault::new();
    let master = fixed_key(1);
    let token = SessionToken::new(&mut db, master.duplicate(), Some(3600)).unwrap();
    assert_eq!(db.sessions.len(), 1);
    assert_eq!(db.sessions[0].id.len(), 16);
    let k = token.into_derived_key(&mut db).unwrap();
    assert_eq!(k.as_bytes(), master.as_bytes());
}

#[test]
fn new_token_with_past_lifetime_expires() {
    let mut db = Vault::new();
    let token = SessionToken::new(&mut db, fixed_key(1), Some(-10)).unwrap();
    assert_eq!(token.into_derived_key(&mut db).err(), Some(VaultError::SessionExpired));
    assert!(db.sessions.is_empty());
}

#[test]
fn expiry_adds_lifetime_or_default() {
    assert_eq!(expiry(1_000, Some(1)), Some(1_001));
    assert_eq!(expiry(0, None), Some(28_800));
    assert_eq!(expiry(i64::MAX, Some(1)), None);
    assert_eq!(expiry(i64::MIN, Some(-1)), None);
}

#[test]
fn new_token_with_one_second_lifetime_expires_after_two() {
    let mut db = Vault::new();
    let token = SessionToken::new(&mut db, fixed_key(1), Some(1)).unwrap();
    let start = db.sessions[0].expire_time - 1;
    assert_eq!(token.redeem_at(&mut db, start + 2).err(), Some(VaultError::SessionExpired));
    assert_eq!(token.redeem_at(&mut db, start).err(), Some(VaultError::InvalidSessionToken));
}
