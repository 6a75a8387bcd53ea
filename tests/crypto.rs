use vault::cipher::{decrypt_vault, derive_key, encrypt_vault, seal_vault};
use vault::error::VaultError;
use vault::hex::{from_hex, to_hex};

#[test]
fn hex_exact_and_round_trip() {
    assert_eq!(to_hex(&[0x0f, 0xa0, 0x00, 0xff]), "0fa000ff");
    assert_eq!(from_hex("0fa000ff").unwrap(), vec![0x0f, 0xa0, 0x00, 0xff]);
    assert!(from_hex("0fa").is_none());
    assert!(from_hex("zz").is_none());
    assert!(from_hex("0F").is_none());
}

#[test]
fn derive_key_is_deterministic() {
    let a = derive_key("hunter2", "abc123").unwrap();
    let b = derive_key("hunter2", "abc123").unwrap();
    assert_eq!(a, b);
    assert_ne!(a, [0u8; 32]);
    let c = derive_key("wrongpass", "abc123").unwrap();
    assert_ne!(a, c);
}

#[test]
fn derive_key_depends_on_salt() {
    let a = derive_key("hunter2", "abc123").unwrap();
    let b = derive_key("hunter2", "abc124").unwrap();
    assert_ne!(a, b);
    assert!(derive_key("hunter2", "").is_ok());
}

#[test]
fn decrypt_of_encrypt_gives_plaintext() {
    let key = [7u8; 32];
    for p in ["", "hello", "1;0;2:ab0;", "ünïcode ✓"] {
        let c = encrypt_vault(p, &key).unwrap();
        assert_ne!(c, to_hex(p.as_bytes()));
        assert_eq!(decrypt_vault(&c, &key).unwrap(), p);
    }
}

#[test]
fn encryption_uses_fresh_nonce() {
    let key = [1u8; 32];
    let a = encrypt_vault("same", &key).unwrap();
    let b = encrypt_vault("same", &key).unwrap();
    assert_ne!(a, b);
}

#[test]
fn wrong_key_rejected() {
    let c = encrypt_vault("secret", &[1u8; 32]).unwrap();
    assert_eq!(decrypt_vault(&c, &[2u8; 32]), Err(VaultError::Decryption));
}

#[test]
fn tampered_ciphertext_rejected() {
    let key = [3u8; 32];
    let c = encrypt_vault("secret payload", &key).unwrap();
    let bytes = from_hex(&c).unwrap();
    for i in 0..bytes.len() {
        let mut t = bytes.clone();
        t[i] ^= 0x01;
        assert_eq!(decrypt_vault(&to_hex(&t), &key), Err(VaultError::Decryption), "byte {i}");
    }
    assert_eq!(decrypt_vault("not hex", &key), Err(VaultError::Decryption));
    assert_eq!(decrypt_vault("00ff", &key), Err(VaultError::Decryption));
}

#[test]
fn seal_vault_is_deterministic_per_nonce() {
    let key = [8u8; 32];
    let n1 = vec![1u8; 12];
    let n2 = vec![2u8; 12];
    let a = seal_vault("payload", &key, &n1).unwrap();
    assert_eq!(a, seal_vault("payload", &key, &n1).unwrap());
    assert_ne!(a, seal_vault("payload", &key, &n2).unwrap());
    assert!(a.starts_with("010101010101010101010101"));
    assert_eq!(a.len(), 2 * (12 + 7 + 16));
    assert_eq!(decrypt_vault(&a, &key).unwrap(), "payload");
}
