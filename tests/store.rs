use rudric::crypto::Key;
use rudric::error::VaultError;
use rudric::secret::{create, ClearSecret, Secret};
use rudric::session::SessionKeyRecord;
use rudric::store::Vault;
use rudric::user::User;

fn vault_with(key: &Key, entries: &[(&str, &str)]) -> Vault {
    let mut db = Vault::new();
    for (name, value) in entries {
        create(&mut db, key, name, value, None).unwrap();
    }
    db
}

#[test]
fn create_get_and_open() {
    let key = Key::generate();
    let db = vault_with(&key, &[("db-pass", "s3cr3t")]);
    let s = Secret::get(&db, "db-pass").unwrap();
    assert_eq!(s.id, Some(1));
    assert_eq!(s.to_cleartext(&key).unwrap().value, "s3cr3t");
}

#[test]
fn create_duplicate_name_fails() {
    let key = Key::generate();
    let mut db = vault_with(&key, &[("db-pass", "s3cr3t")]);
    assert_eq!(create(&mut db, &key, "db-pass", "other", None), Err(VaultError::DuplicateName));
    assert_eq!(db.secrets.len(), 1);
}

#[test]
fn create_empty_value_fails() {
    let key = Key::generate();
    let mut db = Vault::new();
    assert_eq!(create(&mut db, &key, "x", "", None), Err(VaultError::EncryptionFailed));
    assert!(db.secrets.is_empty());
}

#[test]
fn get_missing_fails() {
    let key = Key::generate();
    let db = vault_with(&key, &[("db-pass", "s3cr3t")]);
    assert_eq!(Secret::get(&db, "missing").err(), Some(VaultError::NotFound));
}

#[test]
fn to_cleartext_with_wrong_key_fails() {
    let key = Key::generate();
    let db = vault_with(&key, &[("a", "1")]);
    let s = Secret::get(&db, "a").unwrap();
    assert_eq!(s.to_cleartext(&Key::generate()).err(), Some(VaultError::DecryptionFailed));
}

#[test]
fn ids_are_fresh_and_get_all_lists_everything() {
    let key = Key::generate();
    let mut db = vault_with(&key, &[("a", "1"), ("b", "2"), ("c", "3")]);
    Secret::get(&db, "b").unwrap().delete(&mut db).unwrap();
    create(&mut db, &key, "d", "4", Some("desc".to_string())).unwrap();
    let all = Secret::get_all(&db);
    let ids: Vec<Option<i64>> = all.iter().map(|s| s.id).collect();
    assert_eq!(ids, vec![Some(1), Some(3), Some(4)]);
    assert_eq!(all[2].description, Some("desc".to_string()));
}

#[test]
fn update_rewrites_in_place() {
    let key = Key::generate();
    let mut db = vault_with(&key, &[("a", "1"), ("b", "2")]);
    let s = Secret::get(&db, "a").unwrap();
    let mut c = s.to_cleartext(&key).unwrap();
    c.value = "changed".to_string();
    c.description = Some("note".to_string());
    let updated = c.to_encrypted(&key).unwrap();
    updated.update(&mut db).unwrap();
    let again = Secret::get(&db, "a").unwrap();
    assert_eq!(again.id, Some(1));
    assert_eq!(again.description, Some("note".to_string()));
    assert_eq!(again.to_cleartext(&key).unwrap().value, "changed");
}

#[test]
fn update_unknown_id_or_taken_name_fails() {
    let key = Key::generate();
    let mut db = vault_with(&key, &[("a", "1"), ("b", "2")]);
    let mut s = Secret::get(&db, "a").unwrap();
    s.name = "b".to_string();
    assert_eq!(s.update(&mut db), Err(VaultError::DuplicateName));
    s.name = "a".to_string();
    s.id = Some(99);
    assert_eq!(s.update(&mut db), Err(VaultError::NotFound));
    s.id = None;
    assert_eq!(s.update(&mut db), Err(VaultError::NotFound));
}

#[test]
fn rename_keeps_id() {
    let key = Key::generate();
    let mut db = vault_with(&key, &[("a", "1"), ("b", "2")]);
    let mut s = Secret::get(&db, "a").unwrap();
    s.rename(&mut db, "c").unwrap();
    assert_eq!(s.name, "c");
    let c = Secret::get(&db, "c").unwrap();
    assert_eq!(c.id, Some(1));
    assert_eq!(Secret::get(&db, "a").err(), Some(VaultError::NotFound));
}

#[test]
fn rename_to_taken_name_or_missing_secret_fails() {
    let key = Key::generate();
    let mut db = vault_with(&key, &[("a", "1"), ("b", "2")]);
    let mut s = Secret::get(&db, "a").unwrap();
    assert_eq!(s.rename(&mut db, "b"), Err(VaultError::DuplicateName));
    assert_eq!(s.name, "a");
    let mut ghost = ClearSecret::new("zzz", "v", None).to_encrypted(&key).unwrap();
    assert_eq!(ghost.rename(&mut db, "y"), Err(VaultError::NotFound));
}

#[test]
fn delete_removes_and_fails_when_absent() {
    let key = Key::generate();
    let mut db = vault_with(&key, &[("a", "1")]);
    let s = Secret::get(&db, "a").unwrap();
    s.delete(&mut db).unwrap();
    assert_eq!(s.delete(&mut db), Err(VaultError::NotFound));
    assert!(db.secrets.is_empty());
}

#[test]
fn clear_secret_new_and_encrypt() {
    let key = Key::generate();
    let c = ClearSecret::new("n", "v", Some("d".to_string()));
    assert_eq!(c.id, None);
    let s = c.to_encrypted(&key).unwrap();
    assert_eq!(s.name, "n");
    assert_ne!(s.value, b"v".to_vec());
    assert_eq!(s.to_cleartext(&key).unwrap().value, "v");
    let empty = ClearSecret::new("n", "", None);
    assert_eq!(empty.to_encrypted(&key).err(), Some(VaultError::EncryptionFailed));
}

#[test]
fn invalid_utf8_value_is_reported() {
    let key = Key::generate();
    let sealed = rudric::crypto::encrypt(&key, &[0xff, 0xfe]).unwrap();
    let s = Secret { id: Some(1), name: "bin".to_string(), value: sealed, description: None };
    assert_eq!(s.to_cleartext(&key).err(), Some(VaultError::InvalidUtf8));
}

#[test]
fn from_records_checks_rules() {
    let s = |id: Option<i64>, name: &str| Secret { id, name: name.to_string(), value: vec![1], description: None };
    let ok = Vault::from_records(None, vec![s(Some(4), "a"), s(Some(2), "b")], vec![]).unwrap();
    assert_eq!(ok.next_id, 5);
    assert!(Vault::from_records(None, vec![s(Some(1), "a"), s(Some(2), "a")], vec![]).is_err());
    assert!(Vault::from_records(None, vec![s(Some(1), "a"), s(Some(1), "b")], vec![]).is_err());
    assert!(Vault::from_records(None, vec![s(None, "a")], vec![]).is_err());
    let rec = |b: u8| SessionKeyRecord { id: vec![b; 16], key: vec![0; 32], expire_time: 0 };
    assert!(Vault::from_records(None, vec![], vec![rec(1), rec(1)]).is_err());
    assert!(Vault::from_records(None, vec![], vec![rec(1), rec(2)]).is_ok());
    let u = User { id: 2, master_password_hash: String::new(), salt: vec![] };
    assert_eq!(Vault::from_records(Some(u), vec![], vec![]).err(), Some(VaultError::StorageFailure));
}

#[test]
fn store_assigns_next_id() {
    let key = Key::generate();
    let mut db = Vault::new();
    let s = ClearSecret::new("x", "y", None).to_encrypted(&key).unwrap();
    s.store(&mut db).unwrap();
    assert_eq!(db.secrets[0].id, Some(1));
    assert_eq!(db.next_id, 2);
    assert_eq!(s.store(&mut db), Err(VaultError::DuplicateName));
}
