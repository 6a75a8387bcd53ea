//! The vault configuration: general settings, the persisted vault metadata, the live
//! secrets store, and the session key with its unlock flag.

use vstd::prelude::*;
use vstd::utf8::encode_utf8;
use crate::cipher::{decrypt_vault, derive_key, random_bytes, seal_vault, sealable, password_key, open_vault, vault_text, NONCE_LEN};
use crate::db::{deserialize, serialize, parse_db, enc_db, lemma_parse_enc_db, store_fits, Db, DbEntry, DbEntryField, DynFieldKind, EntryModel, FieldModel};
use crate::error::VaultError;

verus! {

/// One configurable column of every new entry: slot id, label, placeholder, kind.
pub type PresetField = (usize, String, String, DynFieldKind);

/// The ordered column definitions of new entries.
pub type PresetFields = Vec<PresetField>;

pub open spec fn preset_model(p: PresetField) -> (nat, Seq<char>, Seq<char>, DynFieldKind) {
    (p.0 as nat, p.1@, p.2@, p.3)
}

pub open spec fn presets_model(v: Seq<PresetField>) -> Seq<(nat, Seq<char>, Seq<char>, DynFieldKind)> {
    v.map_values(|p: PresetField| preset_model(p))
}

/// The settings kept in plaintext: the auto-lock timeout and the preset columns.
pub struct ConfigGeneral {
    /// Auto-lock timeout, in milliseconds.
    pub db_timeout_ms: u64,
    pub preset_fields: PresetFields,
}

impl View for ConfigGeneral {
    type V = (u64, Seq<(nat, Seq<char>, Seq<char>, DynFieldKind)>);

    open spec fn view(&self) -> Self::V {
        (self.db_timeout_ms, presets_model(self.preset_fields@))
    }
}

/// The persisted vault metadata. `cypher` holds the encrypted store text when `encrypted`,
/// else the store text itself.
pub struct ConfigFileDb {
    pub encrypted: bool,
    pub salt: String,
    pub cypher: String,
}

impl View for ConfigFileDb {
    type V = (bool, Seq<char>, Seq<char>);

    open spec fn view(&self) -> Self::V {
        (self.encrypted, self.salt@, self.cypher@)
    }
}

/// What the configuration file holds: the settings and the vault metadata.
pub struct ConfigFile {
    pub general: ConfigGeneral,
    pub db: ConfigFileDb,
}

/// The vault at run time.
pub struct Config {
    pub general: ConfigGeneral,
    pub db: Db,
    pub config_db: ConfigFileDb,
    pub vault_unlocked: bool,
    pub config_path: String,
    pub hash: SessionKey,
}

/// The session key derived from the password; its bytes stay inside this module.
pub struct SessionKey {
    bytes: [u8; 32],
}

impl View for SessionKey {
    type V = Seq<u8>;

    closed spec fn view(&self) -> Seq<u8> {
        self.bytes@
    }
}

impl SessionKey {
    fn cleared() -> (r: SessionKey)
        ensures
            r@ == cleared_key(),
    {
        SessionKey { bytes: zero_key() }
    }

    fn from_bytes(bytes: [u8; 32]) -> (r: SessionKey)
        ensures
            r@ == bytes@,
    {
        SessionKey { bytes }
    }

    fn is_cleared(&self) -> (r: bool)
        ensures
            r == (self@ == cleared_key()),
    {
        let mut i: usize = 0;
        while i < 32
            invariant
                i <= 32,
                self.bytes@.len() == 32,
                forall|k: int| 0 <= k < i ==> self.bytes@[k] == 0u8,
            decreases 32 - i,
        {
            if self.bytes[i] != 0 {
                assert(self.bytes@[i as int] != cleared_key()[i as int]);
                return false;
            }
            i = i + 1;
        }
        assert(self.bytes@ =~= cleared_key());
        true
    }

    fn bytes(&self) -> (r: &[u8; 32])
        ensures
            r@ == self@,
    {
        &self.bytes
    }
}

/// The value of a session key that holds no key.
pub open spec fn cleared_key() -> Seq<u8> {
    Seq::new(32, |i: int| 0u8)
}

pub open spec fn default_presets() -> Seq<(nat, Seq<char>, Seq<char>, DynFieldKind)> {
    seq![
        (0nat, "Custom"@, ""@, DynFieldKind::SecretLine),
        (1nat, "Username"@, "Username"@, DynFieldKind::SecretLine),
        (2nat, "Password"@, "Password"@, DynFieldKind::SecretLine),
        (3nat, "Website"@, "URL"@, DynFieldKind::Url),
        (4nat, "Notes"@, "Notes"@, DynFieldKind::TextLine),
    ]
}

/// The store text that unlocking with `key` reads: the decrypted cypher of an encrypted
/// vault, or the cypher itself.
pub open spec fn unlocked_text(meta: (bool, Seq<char>, Seq<char>), key: Seq<u8>) -> Result<Seq<char>, VaultError> {
    if meta.0 {
        match open_vault(meta.2, key) {
            Some(p) => Ok(p),
            None => Err(VaultError::Decryption),
        }
    } else {
        Ok(meta.2)
    }
}

/// The entries that a store text gives, or why it gives none.
pub open spec fn store_of(text: Result<Seq<char>, VaultError>) -> Result<Seq<EntryModel>, VaultError> {
    match text {
        Ok(t) => match parse_db(t) {
            Some(es) => Ok(es),
            None => Err(VaultError::MalformedStore),
        },
        Err(e) => Err(e),
    }
}

fn zero_key() -> (r: [u8; 32])
    ensures
        r@ == cleared_key(),
{
    let r = [0u8; 32];
    assert(r@ =~= cleared_key());
    r
}

fn copy_presets(v: &PresetFields) -> (r: PresetFields)
    ensures
        presets_model(r@) == presets_model(v@),
{
    let mut out: PresetFields = Vec::new();
    let mut i: usize = 0;
    while i < v.len()
        invariant
            i <= v@.len(),
            presets_model(out@) == presets_model(v@.take(i as int)),
        decreases v.len() - i,
    {
        let p = &v[i];
        let ghost before = out@;
        let a = p.1.clone();
        let b = p.2.clone();
        out.push((p.0, a, b, p.3));
        assert(v@.take(i + 1) =~= v@.take(i as int).push(v@[i as int]));
        assert(preset_model(out@.last()) == preset_model(v@[i as int]));
        assert(presets_model(out@) =~= presets_model(before).push(preset_model(out@.last())));
        assert(presets_model(v@.take(i + 1)) =~= presets_model(v@.take(i as int)).push(preset_model(v@[i as int])));
        i = i + 1;
    }
    assert(v@.take(i as int) =~= v@);
    out
}

impl ConfigGeneral {
    /// A copy of the settings.
    pub fn copy(&self) -> (r: ConfigGeneral)
        ensures
            r@ == self@,
    {
        ConfigGeneral { db_timeout_ms: self.db_timeout_ms, preset_fields: copy_presets(&self.preset_fields) }
    }
}

impl ConfigFileDb {
    /// A copy of the metadata.
    pub fn copy(&self) -> (r: ConfigFileDb)
        ensures
            r@ == self@,
    {
        ConfigFileDb { encrypted: self.encrypted, salt: self.salt.clone(), cypher: self.cypher.clone() }
    }
}

impl Config {
    pub open spec fn session_key(&self) -> Seq<u8> {
        self.hash@
    }

    pub open spec fn path(&self) -> Seq<char> {
        self.config_path@
    }

    /// The state after an unlock attempt whose outcome is `store`, from `old`.
    pub open spec fn unlock_post(
        old: &Config,
        new: &Config,
        key: Seq<u8>,
        store: Result<Seq<EntryModel>, VaultError>,
        r: Result<(), VaultError>,
    ) -> bool {
        &&& new.general@ == old.general@
        &&& new.config_db@ == old.config_db@
        &&& new.path() == old.path()
        &&& match store {
            Ok(es) => r is Ok && new.db@ == es && new.vault_unlocked && new.session_key() == key,
            Err(e) => r == Err::<(), VaultError>(e) && !new.vault_unlocked && new.db@ == old.db@
                && new.session_key() == cleared_key(),
        }
    }

    /// A locked vault with the settings and metadata read from the configuration file at `path`.
    pub fn from_file(file: ConfigFile, path: String) -> (r: Config)
        ensures
            r.general@ == file.general@,
            r.config_db@ == file.db@,
            r.db@ == Seq::<EntryModel>::empty(),
            !r.vault_unlocked,
            r.session_key() == cleared_key(),
            r.path() == path@,
    {
        Config {
            general: file.general,
            db: Db::empty(),
            config_db: file.db,
            vault_unlocked: false,
            config_path: path,
            hash: SessionKey::cleared(),
        }
    }

    /// What is written to the configuration file: the settings and the metadata, never the
    /// live store or the session key.
    pub fn to_file(&self) -> (r: ConfigFile)
        ensures
            r.general@ == self.general@,
            r.db@ == self.config_db@,
    {
        ConfigFile { general: self.general.copy(), db: self.config_db.copy() }
    }

    /// The file that this vault is saved to.
    pub fn config_path(&self) -> (r: &String)
        ensures
            r@ == self.path(),
    {
        &self.config_path
    }

    /// The preset columns of new entries.
    pub fn get_field_presets(&self) -> (r: PresetFields)
        ensures
            presets_model(r@) == self.general@.1,
    {
        copy_presets(&self.general.preset_fields)
    }

    /// Forgets the session key; without it the vault counts as locked.
    pub fn clear_hash(&mut self)
        ensures
            final(self).session_key() == cleared_key(),
            !final(self).vault_unlocked,
            final(self).db@ == old(self).db@,
            final(self).general@ == old(self).general@,
            final(self).config_db@ == old(self).config_db@,
            final(self).path() == old(self).path(),
    {
        self.hash = SessionKey::cleared();
        self.vault_unlocked = false;
    }

    /// Locks the vault: the session key is cleared and the decrypted entries are dropped.
    pub fn lock(&mut self)
        ensures
            final(self).session_key() == cleared_key(),
            !final(self).vault_unlocked,
            final(self).db@ == Seq::<EntryModel>::empty(),
            final(self).general@ == old(self).general@,
            final(self).config_db@ == old(self).config_db@,
            final(self).path() == old(self).path(),
    {
        self.hash = SessionKey::cleared();
        self.vault_unlocked = false;
        self.db = Db::empty();
    }

    /// Ends an unlock attempt with the key derived and the store text that was read under it.
    pub fn finish_unlock(&mut self, key: [u8; 32], text: Result<String, VaultError>) -> (r: Result<(), VaultError>)
        ensures
            Config::unlock_post(
                old(self),
                final(self),
                key@,
                store_of(
                    match text {
                        Ok(t) => Ok(t@),
                        Err(e) => Err(e),
                    },
                ),
                r,
            ),
    {
        let parsed = match text {
            Ok(t) => deserialize(t.as_str()),
            Err(e) => Err(e),
        };
        match parsed {
            Ok(db) => {
                self.db = db;
                self.hash = SessionKey::from_bytes(key);
                self.vault_unlocked = true;
                Ok(())
            },
            Err(e) => {
                self.hash = SessionKey::cleared();
                self.vault_unlocked = false;
                Err(e)
            },
        }
    }

    /// Unlocks with the outcome of key derivation.
    pub fn unlock_with_key(&mut self, derived: Result<[u8; 32], VaultError>) -> (r: Result<(), VaultError>)
        ensures
            match derived {
                Ok(k) => Config::unlock_post(old(self), final(self), k@, store_of(unlocked_text(old(self).config_db@, k@)), r),
                Err(e) => Config::unlock_post(old(self), final(self), cleared_key(), Err(e), r),
            },
            derived matches Ok(k) ==> Config::opens_saved(old(self), final(self), k@, r),
    {
        match derived {
            Ok(key) => {
                let ghost old_self = *self;
                let text = if self.config_db.encrypted {
                    decrypt_vault(self.config_db.cypher.as_str(), &key)
                } else {
                    Ok(self.config_db.cypher.clone())
                };
                proof {
                    assert forall|n: Seq<u8>, t: Seq<char>|
                        old_self.config_db.encrypted && n.len() == NONCE_LEN && sealable(encode_utf8(t))
                            && old_self.config_db.cypher@ == #[trigger] vault_text(key@, n, t)
                        implies (text matches Ok(x) && x@ == t) by {
                    }
                }
                self.finish_unlock(key, text)
            },
            Err(e) => {
                self.hash = SessionKey::cleared();
                self.vault_unlocked = false;
                Err(e)
            },
        }
    }

    /// Unlocks the vault with a password: derives the session key from the password and the
    /// stored salt, decrypts the cypher if the vault is encrypted, and reads the store from it.
    /// On any failure the vault is left locked and the live store untouched.
    pub fn decrypt_database(&mut self, password: String) -> (r: Result<(), VaultError>)
        ensures
            match password_key(password@, old(self).config_db.salt@) {
                Some(k) => Config::unlock_post(old(self), final(self), k, store_of(unlocked_text(old(self).config_db@, k)), r),
                None => Config::unlock_post(old(self), final(self), cleared_key(), Err(VaultError::Derivation), r),
            },
            r is Err ==> !final(self).vault_unlocked && final(self).db@ == old(self).db@,
            match password_key(password@, old(self).config_db.salt@) {
                Some(k) => Config::opens_saved(old(self), final(self), k, r),
                None => true,
            },
    {
        let derived = derive_key(password.as_str(), self.config_db.salt.as_str());
        self.unlock_with_key(derived)
    }

    /// Unlocking with `key` a cypher that a save under `key` wrote gives the store text that
    /// was saved.
    pub open spec fn opens_saved(old: &Config, new: &Config, key: Seq<u8>, r: Result<(), VaultError>) -> bool {
        forall|n: Seq<u8>, t: Seq<char>|
            old.config_db.encrypted && n.len() == NONCE_LEN && sealable(encode_utf8(t))
                && old.config_db.cypher@ == #[trigger] vault_text(key, n, t)
                ==> Config::unlock_post(old, new, key, store_of(Ok(t)), r)
    }

    /// Whether the vault is unlocked and holds a session key.
    pub open spec fn holds_key(&self) -> bool {
        self.vault_unlocked && self.session_key() != cleared_key()
    }

    /// Writes the live store into the metadata's cypher: its text, or, when the vault is
    /// encrypted, that text encrypted under the session key with `nonce`. An encrypted vault
    /// must be unlocked with a key.
    pub fn serialize_db_with_nonce(&mut self, nonce: &Vec<u8>) -> (r: Result<(), VaultError>)
        requires
            old(self).config_db.encrypted ==> nonce@.len() == NONCE_LEN,
        ensures
            final(self).general@ == old(self).general@,
            final(self).db@ == old(self).db@,
            final(self).vault_unlocked == old(self).vault_unlocked,
            final(self).session_key() == old(self).session_key(),
            final(self).path() == old(self).path(),
            final(self).config_db.encrypted == old(self).config_db.encrypted,
            final(self).config_db.salt@ == old(self).config_db.salt@,
            !old(self).config_db.encrypted ==> r is Ok && final(self).config_db.cypher@ == enc_db(old(self).db@),
            old(self).config_db.encrypted && !old(self).holds_key() ==> r == Err::<(), VaultError>(VaultError::NotUnlocked),
            old(self).config_db.encrypted && old(self).holds_key() ==> (
                (r is Ok <==> sealable(encode_utf8(enc_db(old(self).db@))))
                && (r is Ok ==> final(self).config_db.cypher@ == vault_text(old(self).session_key(), nonce@, enc_db(old(self).db@)))
                && (r is Err ==> r == Err::<(), VaultError>(VaultError::Encryption))),
            r is Err ==> final(self).config_db@ == old(self).config_db@,
    {
        let text = serialize(&self.db);
        if self.config_db.encrypted {
            if !self.vault_unlocked || self.hash.is_cleared() {
                return Err(VaultError::NotUnlocked);
            }
            match seal_vault(text.as_str(), self.hash.bytes(), nonce) {
                Ok(c) => {
                    self.config_db.cypher = c;
                    Ok(())
                },
                Err(e) => Err(e),
            }
        } else {
            self.config_db.cypher = text;
            Ok(())
        }
    }

    /// Writes the live store into the metadata's cypher, as `serialize_db_with_nonce` does with
    /// a fresh random nonce.
    pub fn serialize_db(&mut self) -> (r: Result<(), VaultError>)
        ensures
            final(self).general@ == old(self).general@,
            final(self).db@ == old(self).db@,
            final(self).vault_unlocked == old(self).vault_unlocked,
            final(self).session_key() == old(self).session_key(),
            final(self).path() == old(self).path(),
            final(self).config_db.encrypted == old(self).config_db.encrypted,
            final(self).config_db.salt@ == old(self).config_db.salt@,
            !old(self).config_db.encrypted ==> r is Ok && final(self).config_db.cypher@ == enc_db(old(self).db@),
            old(self).config_db.encrypted && !old(self).holds_key() ==> r == Err::<(), VaultError>(VaultError::NotUnlocked),
            old(self).config_db.encrypted && old(self).holds_key() && r is Err ==> r == Err::<(), VaultError>(VaultError::Encryption),
            r is Ok && old(self).config_db.encrypted ==> sealable(encode_utf8(enc_db(old(self).db@)))
                && exists|n: Seq<u8>| n.len() == NONCE_LEN
                && final(self).config_db.cypher@ == vault_text(old(self).session_key(), n, enc_db(old(self).db@)),
            r is Err ==> final(self).config_db@ == old(self).config_db@,
    {
        if !self.config_db.encrypted {
            return self.serialize_db_with_nonce(&Vec::new());
        }
        if !self.vault_unlocked || self.hash.is_cleared() {
            return Err(VaultError::NotUnlocked);
        }
        match random_bytes(NONCE_LEN) {
            Some(nonce) => self.serialize_db_with_nonce(&nonce),
            None => Err(VaultError::Encryption),
        }
    }
}

/// The vault of a fresh installation: unencrypted, empty, with the five default columns and
/// an auto-lock timeout of 900 seconds.
impl Default for Config {
    fn default() -> (r: Config)
        ensures
            r.general@ == (900_000u64, default_presets()),
            r.config_db@ == (false, Seq::<char>::empty(), enc_db(Seq::<EntryModel>::empty())),
            r.db@ == Seq::<EntryModel>::empty(),
            !r.vault_unlocked,
            r.session_key() == cleared_key(),
            r.path() == Seq::<char>::empty(),
    {
        let mut presets: PresetFields = Vec::new();
        presets.push((0, "Custom".to_owned(), "".to_owned(), DynFieldKind::SecretLine));
        presets.push((1, "Username".to_owned(), "Username".to_owned(), DynFieldKind::SecretLine));
        presets.push((2, "Password".to_owned(), "Password".to_owned(), DynFieldKind::SecretLine));
        presets.push((3, "Website".to_owned(), "URL".to_owned(), DynFieldKind::Url));
        presets.push((4, "Notes".to_owned(), "Notes".to_owned(), DynFieldKind::TextLine));
        assert(presets_model(presets@) =~= default_presets());
        let empty = String::new();
        let empty_store = Db::empty();
        let r = Config {
            general: ConfigGeneral { db_timeout_ms: 900_000, preset_fields: presets },
            db: Db::empty(),
            config_db: ConfigFileDb { encrypted: false, salt: String::new(), cypher: serialize(&empty_store) },
            vault_unlocked: false,
            config_path: empty,
            hash: SessionKey::cleared(),
        };
        r
    }
}

/// A store text written by a save reads back, on unlock, as the entries that were saved.
pub proof fn lemma_store_of_saved(es: Seq<EntryModel>)
    requires
        store_fits(es),
    ensures
        store_of(Ok(enc_db(es))) == Ok::<Seq<EntryModel>, VaultError>(es),
{
    lemma_parse_enc_db(es);
}

/// A new entry with one empty value for each preset column, in the presets' order.
pub fn entry_from_presets(id: usize, title: String, presets: &PresetFields) -> (r: DbEntry)
    ensures
        r@.id == id as nat,
        r@.title == title@,
        r@.fields.len() == presets@.len(),
        forall|i: int| 0 <= i < presets@.len() ==> (#[trigger] r@.fields[i]) == (FieldModel {
            slot_id: presets@[i].0 as nat,
            kind: presets@[i].3,
            value: Seq::<char>::empty(),
        }),
{
    let mut fields: Vec<DbEntryField> = Vec::new();
    let mut i: usize = 0;
    while i < presets.len()
        invariant
            i <= presets@.len(),
            fields@.len() == i,
            forall|k: int| 0 <= k < i ==> (#[trigger] fields@[k])@ == (FieldModel {
                slot_id: presets@[k].0 as nat,
                kind: presets@[k].3,
                value: Seq::<char>::empty(),
            }),
        decreases presets.len() - i,
    {
        fields.push(DbEntryField { slot_id: presets[i].0, kind: presets[i].3, value: String::new() });
        i = i + 1;
    }
    DbEntry { id, title, fields }
}

} // verus!
