use rudric::commands::{edit_description, edit_value, list_rows};
use rudric::crypto::Key;
use rudric::db::{db_path, db_url};
use rudric::error::VaultError;
use rudric::secret::{create, Secret};
use rudric::store::Vault;

#[test]
fn edit_value_changes_only_when_different() {
    let key = Key::generate();
    let mut db = Vault::new();
    create(&mut db, &key, "a", "one", None).unwrap();
    assert_eq!(edit_value(&mut db, &key, "a", b"one"), Ok(false));
    assert_eq!(edit_value(&mut db, &key, "a", b"two"), Ok(true));
    let s = Secret::get(&db, "a").unwrap();
    assert_eq!(s.id, Some(1));
    assert_eq!(s.to_cleartext(&key).unwrap().value, "two");
    assert_eq!(edit_value(&mut db, &key, "a", b""), Err(VaultError::EncryptionFailed));
    assert_eq!(edit_value(&mut db, &key, "zz", b"x"), Err(VaultError::NotFound));
    assert_eq!(edit_value(&mut db, &Key::generate(), "a", b"x"), Err(VaultError::DecryptionFailed));
}

#[test]
fn edit_description_sets_and_clears() {
    let key = Key::generate();
    let mut db = Vault::new();
    create(&mut db, &key, "a", "one", None).unwrap();
    assert_eq!(edit_description(&mut db, "a", b""), Ok(false));
    assert_eq!(edit_description(&mut db, "a", b"note"), Ok(true));
    assert_eq!(Secret::get(&db, "a").unwrap().description, Some("note".to_string()));
    assert_eq!(edit_description(&mut db, "a", b"note"), Ok(false));
    assert_eq!(edit_description(&mut db, "a", &[0xff]), Err(VaultError::InvalidUtf8));
    assert_eq!(edit_description(&mut db, "a", b""), Ok(true));
    assert_eq!(Secret::get(&db, "a").unwrap().description, None);
    assert_eq!(edit_description(&mut db, "b", b"x"), Err(VaultError::NotFound));
}

#[test]
fn list_rows_trims_descriptions() {
    let key = Key::generate();
    let mut db = Vault::new();
    create(&mut db, &key, "a", "one", Some("  spaced \n".to_string())).unwrap();
    create(&mut db, &key, "b", "two", None).unwrap();
    let rows = list_rows(&db);
    assert_eq!(rows.len(), 2);
    assert_eq!((rows[0].id, rows[0].name.as_str(), rows[0].description.as_str()), (1, "a", "spaced"));
    assert_eq!((rows[1].id, rows[1].name.as_str(), rows[1].description.as_str()), (2, "b", ""));
}

#[test]
fn database_paths() {
    assert_eq!(db_path("/home/u/.config/rudric"), "/home/u/.config/rudric/data.db");
    assert_eq!(db_path("dir/"), "dir/data.db");
    assert_eq!(db_path(""), "data.db");
    assert_eq!(db_url("/tmp/v"), "sqlite:///tmp/v/data.db");
}
