use vault::cipher::{derive_key, encrypt_vault, seal_vault};
use vault::db::deserialize;
use vault::config::{entry_from_presets, Config, ConfigFile};
use vault::db::{serialize, Db, DbEntry, DbEntryField, DynFieldKind};
use vault::error::VaultError;

fn entry(id: usize, title: &str, value: &str) -> DbEntry {
    DbEntry {
        id,
        title: title.to_string(),
        fields: vec![DbEntryField { slot_id: 2, kind: DynFieldKind::SecretLine, value: value.to_string() }],
    }
}

/// An encrypted vault with salt "abc123" whose store, under "hunter2", holds `db`.
fn encrypted_vault(db: &Db) -> Config {
    let key = derive_key("hunter2", "abc123").unwrap();
    let mut c = Config::default();
    c.config_db.encrypted = true;
    c.config_db.salt = "abc123".to_string();
    c.config_db.cypher = encrypt_vault(&serialize(db), &key).unwrap();
    c
}

fn reload(c: &Config) -> Config {
    let file: ConfigFile = c.to_file();
    Config::from_file(file, c.config_path().clone())
}

#[test]
fn fresh_default_vault() {
    let c = Config::default();
    assert!(!c.config_db.encrypted);
    assert_eq!(c.config_db.salt, "");
    assert_eq!(c.config_db.cypher, "0;");
    assert!(c.db.contents.is_empty());
    assert!(!c.vault_unlocked);
    assert_eq!(c.general.db_timeout_ms, 900_000);
    let presets = c.get_field_presets();
    let labels: Vec<&str> = presets.iter().map(|p| p.1.as_str()).collect();
    assert_eq!(labels, ["Custom", "Username", "Password", "Website", "Notes"]);
    let ids: Vec<usize> = presets.iter().map(|p| p.0).collect();
    assert_eq!(ids, [0, 1, 2, 3, 4]);
    assert_eq!(presets[3].2, "URL");
    assert_eq!(presets[3].3, DynFieldKind::Url);
    assert_eq!(presets[4].3, DynFieldKind::TextLine);
}

#[test]
fn unlock_with_correct_password() {
    let mut db = Db::empty();
    db.add_entry(entry(0, "mail", "pw1"));
    let mut c = encrypted_vault(&db);
    assert_eq!(c.decrypt_database("hunter2".to_string()), Ok(()));
    assert!(c.vault_unlocked);
    assert_eq!(c.db.contents.len(), 1);
    assert_eq!(c.db.contents[0].title, "mail");
    assert_eq!(c.db.contents[0].fields[0].value, "pw1");
}

#[test]
fn entries_survive_save_and_restart() {
    let mut c = encrypted_vault(&Db::empty());
    c.decrypt_database("hunter2".to_string()).unwrap();
    c.db.add_entry(entry(0, "first", "a"));
    c.db.add_entry(entry(1, "second", "b"));
    c.serialize_db().unwrap();
    assert!(!c.config_db.cypher.contains("first"));
    let mut again = reload(&c);
    assert!(!again.vault_unlocked);
    assert!(again.db.contents.is_empty());
    again.decrypt_database("hunter2".to_string()).unwrap();
    let titles: Vec<&str> = again.db.contents.iter().map(|e| e.title.as_str()).collect();
    assert_eq!(titles, ["first", "second"]);
    assert_eq!(again.db.contents[1].fields[0].value, "b");
}

#[test]
fn wrong_password_leaves_vault_locked() {
    let mut db = Db::empty();
    db.add_entry(entry(0, "mail", "pw1"));
    let mut c = encrypted_vault(&db);
    assert_eq!(c.decrypt_database("wrongpass".to_string()), Err(VaultError::Decryption));
    assert!(!c.vault_unlocked);
    assert!(c.db.contents.is_empty());
}

#[test]
fn wrong_password_keeps_live_store() {
    let mut c = encrypted_vault(&Db::empty());
    c.db.add_entry(entry(5, "live", "x"));
    assert!(c.decrypt_database("wrongpass".to_string()).is_err());
    assert!(!c.vault_unlocked);
    assert_eq!(c.db.contents.len(), 1);
    assert_eq!(c.db.contents[0].title, "live");
}

#[test]
fn unencrypted_vault_reads_cypher_directly() {
    let mut c = Config::default();
    c.config_db.salt = "abc123".to_string();
    let mut db = Db::empty();
    db.add_entry(entry(3, "plain", "v"));
    c.config_db.cypher = serialize(&db);
    assert_eq!(c.decrypt_database("anything".to_string()), Ok(()));
    assert!(c.vault_unlocked);
    assert_eq!(c.db.contents[0].title, "plain");
}

#[test]
fn malformed_plain_store() {
    let mut c = Config::default();
    c.config_db.salt = "abc123".to_string();
    c.config_db.cypher = "garbage".to_string();
    assert_eq!(c.decrypt_database("x".to_string()), Err(VaultError::MalformedStore));
    assert!(!c.vault_unlocked);
}

#[test]
fn save_encrypted_while_locked_fails() {
    let mut c = encrypted_vault(&Db::empty());
    let before = c.config_db.cypher.clone();
    assert_eq!(c.serialize_db(), Err(VaultError::NotUnlocked));
    assert_eq!(c.config_db.cypher, before);
}

#[test]
fn save_unencrypted_writes_store_text() {
    let mut c = Config::default();
    c.db.add_entry(entry(1, "t", "v"));
    assert_eq!(c.serialize_db(), Ok(()));
    assert_eq!(c.config_db.cypher, "1;1;1:t1;2;s1:v");
}

#[test]
fn settings_survive_reload() {
    let mut c = Config::default();
    c.general.db_timeout_ms = 1234;
    c.general.preset_fields.pop();
    let again = reload(&c);
    assert_eq!(again.general.db_timeout_ms, 1234);
    assert_eq!(again.get_field_presets(), c.get_field_presets());
    assert_eq!(again.config_db.cypher, c.config_db.cypher);
}

#[test]
fn lock_clears_session() {
    let mut c = encrypted_vault(&Db::empty());
    c.decrypt_database("hunter2".to_string()).unwrap();
    c.db.add_entry(entry(0, "a", "b"));
    c.lock();
    assert!(!c.vault_unlocked);
    assert!(c.db.contents.is_empty());
    assert_eq!(c.serialize_db(), Err(VaultError::NotUnlocked));
}

#[test]
fn new_entry_follows_presets() {
    let c = Config::default();
    let e = entry_from_presets(4, "title".to_string(), &c.general.preset_fields);
    assert_eq!(e.id, 4);
    assert_eq!(e.fields.len(), 5);
    assert_eq!(e.fields[3].slot_id, 3);
    assert_eq!(e.fields[3].kind, DynFieldKind::Url);
    assert!(e.fields.iter().all(|f| f.value.is_empty()));
}

#[test]
fn failed_derivation_leaves_vault_locked() {
    let mut c = encrypted_vault(&Db::empty());
    c.db.add_entry(entry(1, "kept", "v"));
    assert_eq!(c.unlock_with_key(Err(VaultError::Derivation)), Err(VaultError::Derivation));
    assert!(!c.vault_unlocked);
    assert_eq!(c.db.contents[0].title, "kept");
}

#[test]
fn finish_unlock_reads_text() {
    let mut c = Config::default();
    assert_eq!(c.finish_unlock([9u8; 32], Ok("1;4;1:x0;".to_string())), Ok(()));
    assert!(c.vault_unlocked);
    assert_eq!(c.db.contents[0].id, 4);
    assert_eq!(c.db.contents[0].title, "x");
    assert_eq!(c.finish_unlock([9u8; 32], Ok("1;4;".to_string())), Err(VaultError::MalformedStore));
    assert!(!c.vault_unlocked);
    assert_eq!(c.db.contents[0].title, "x");
    assert_eq!(c.finish_unlock([9u8; 32], Err(VaultError::Decryption)), Err(VaultError::Decryption));
    assert!(!c.vault_unlocked);
}

#[test]
fn unlock_with_key_decrypts_cypher() {
    let key = [5u8; 32];
    let mut c = Config::default();
    c.config_db.encrypted = true;
    c.config_db.cypher = encrypt_vault("1;2;3:abc0;", &key).unwrap();
    assert_eq!(c.unlock_with_key(Ok([6u8; 32])), Err(VaultError::Decryption));
    assert!(!c.vault_unlocked);
    assert_eq!(c.unlock_with_key(Ok(key)), Ok(()));
    assert_eq!(c.db.contents[0].title, "abc");
    assert_eq!(deserialize("1;2;3:abc0;").unwrap().contents[0].id, 2);
}

#[test]
fn fresh_default_vault_unlocks_empty() {
    let mut c = Config::default();
    assert_eq!(c.decrypt_database(String::new()), Ok(()));
    assert!(c.vault_unlocked);
    assert!(c.db.contents.is_empty());
}

#[test]
fn clear_hash_locks_and_blocks_save() {
    let mut c = encrypted_vault(&Db::empty());
    c.decrypt_database("hunter2".to_string()).unwrap();
    c.db.add_entry(entry(0, "a", "b"));
    let before = c.config_db.cypher.clone();
    c.clear_hash();
    assert!(!c.vault_unlocked);
    assert_eq!(c.serialize_db(), Err(VaultError::NotUnlocked));
    assert_eq!(c.config_db.cypher, before);
    c.vault_unlocked = true;
    assert_eq!(c.serialize_db(), Err(VaultError::NotUnlocked));
    assert_eq!(c.config_db.cypher, before);
}

#[test]
fn save_with_nonce_is_exact() {
    let mut c = encrypted_vault(&Db::empty());
    c.decrypt_database("hunter2".to_string()).unwrap();
    c.db.add_entry(entry(1, "t", "v"));
    let nonce = vec![4u8; 12];
    assert_eq!(c.serialize_db_with_nonce(&nonce), Ok(()));
    let first = c.config_db.cypher.clone();
    assert!(first.starts_with("040404040404040404040404"));
    let key = derive_key("hunter2", "abc123").unwrap();
    assert_eq!(first, seal_vault("1;1;1:t1;2;s1:v", &key, &nonce).unwrap());
    assert_eq!(c.serialize_db_with_nonce(&nonce), Ok(()));
    assert_eq!(c.config_db.cypher, first);
}
