use rudric::auth::{App, AuthMethod};
use rudric::crypto::{derive_key, Key};
use rudric::error::VaultError;
use rudric::rotation::change_password;
use rudric::secret::{create, Secret};
use rudric::store::Vault;
use rudric::user::User;

#[test]
fn new_user_authenticates_its_password() {
    let u = User::new("correct horse").unwrap();
    assert_eq!(u.id, 1);
    assert_eq!(u.salt.len(), 16);
    assert!(u.authenticate("correct horse"));
    assert!(!u.authenticate("wrong horse"));
}

#[test]
fn new_user_rejects_empty_password() {
    assert_eq!(User::new("").err(), Some(VaultError::InvalidPassword));
}

#[test]
fn master_key_needs_the_password() {
    let u = User::new("pw").unwrap();
    assert_eq!(u.master_key("nope").err(), Some(VaultError::AuthenticationFailed));
}

#[test]
fn master_key_is_derived_from_password_and_salt() {
    let u = User::new("pw").unwrap();
    let k = u.master_key("pw").unwrap();
    let d = derive_key("pw", &u.salt).unwrap();
    assert_eq!(k.as_bytes(), d.as_bytes());
}

#[test]
fn store_load_and_update_user() {
    let mut db = Vault::new();
    assert_eq!(User::load(&db).err(), Some(VaultError::NotFound));
    let u = User { id: 5, master_password_hash: "h".to_string(), salt: vec![1; 16] };
    assert_eq!(u.update(&mut db), Err(VaultError::NotFound));
    u.store(&mut db).unwrap();
    assert_eq!(u.store(&mut db), Err(VaultError::StorageFailure));
    let loaded = User::load(&db).unwrap();
    assert_eq!(loaded.id, 1);
    let v = User { id: 1, master_password_hash: "g".to_string(), salt: vec![2; 16] };
    v.update(&mut db).unwrap();
    assert_eq!(User::load(&db).unwrap().master_password_hash, "g");
}

#[test]
fn authenticate_user_needs_user_and_password() {
    let mut db = Vault::new();
    assert_eq!(App::authenticate_user(&db, "pw").err(), Some(VaultError::NotFound));
    User::new("pw").unwrap().store(&mut db).unwrap();
    assert_eq!(App::authenticate_user(&db, "other").err(), Some(VaultError::AuthenticationFailed));
}

#[test]
fn app_with_password_unlocks() {
    let mut db = Vault::new();
    User::new("pw").unwrap().store(&mut db).unwrap();
    let app = App::with_password(db, "pw").unwrap();
    assert!(app.auth_method == AuthMethod::Password);
    assert_eq!(app.master_key.as_bytes().len(), 32);
}

#[test]
fn rotation_keeps_cleartexts_under_new_key() {
    let mut db = Vault::new();
    let old_key = Key::generate();
    let u = User { id: 1, master_password_hash: "old".to_string(), salt: vec![0; 16] };
    u.store(&mut db).unwrap();
    create(&mut db, &old_key, "a", "alpha", None).unwrap();
    create(&mut db, &old_key, "b", "beta", Some("d".to_string())).unwrap();
    let new_key = change_password(&mut db, &old_key, "new-pw").unwrap();
    let user = User::load(&db).unwrap();
    assert_ne!(user.salt, vec![0; 16]);
    assert_eq!(Secret::get(&db, "a").unwrap().to_cleartext(&new_key).unwrap().value, "alpha");
    assert_eq!(Secret::get(&db, "b").unwrap().to_cleartext(&new_key).unwrap().value, "beta");
    assert_eq!(Secret::get(&db, "b").unwrap().description, Some("d".to_string()));
    assert_eq!(Secret::get(&db, "a").unwrap().to_cleartext(&old_key).err(), Some(VaultError::DecryptionFailed));
}

#[test]
fn rotation_switches_the_password() {
    let mut db = Vault::new();
    User::new("old-pw").unwrap().store(&mut db).unwrap();
    let old_key = Key::generate();
    change_password(&mut db, &old_key, "new-pw").unwrap();
    let user = User::load(&db).unwrap();
    assert!(user.authenticate("new-pw"));
    assert!(!user.authenticate("old-pw"));
}

#[test]
fn rotation_failure_changes_nothing() {
    let mut db = Vault::new();
    let key = Key::generate();
    let u = User { id: 1, master_password_hash: "old".to_string(), salt: vec![0; 16] };
    u.store(&mut db).unwrap();
    create(&mut db, &key, "a", "alpha", None).unwrap();
    let wrong = Key::generate();
    assert_eq!(change_password(&mut db, &wrong, "new-pw").err(), Some(VaultError::DecryptionFailed));
    assert_eq!(User::load(&db).unwrap().master_password_hash, "old");
    assert_eq!(Secret::get(&db, "a").unwrap().to_cleartext(&key).unwrap().value, "alpha");
    assert_eq!(change_password(&mut db, &key, "").err(), Some(VaultError::InvalidPassword));
    let mut empty = Vault::new();
    assert_eq!(change_password(&mut empty, &key, "x").err(), Some(VaultError::NotFound));
}
