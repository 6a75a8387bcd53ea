//! Key derivation from a password, and authenticated encryption of the vault text.
//!
//! An encrypted vault text is the hexadecimal spelling of a fresh 12-byte nonce
//! followed by the ChaCha20-Poly1305 ciphertext of the UTF-8 bytes of the plaintext.

use vstd::prelude::*;
use vstd::utf8::{decode_utf8, encode_utf8, valid_utf8};
use chacha20poly1305::aead::{Aead, KeyInit};
use crate::error::VaultError;
use crate::hex::{from_hex, hex_dec, hex_enc, lemma_hex_round_trip, to_hex};

verus! {

/// Length in bytes of the nonce that leads an encrypted vault text.
pub const NONCE_LEN: usize = 12;

/// The 32-byte key that scrypt derives from the UTF-8 bytes of a password and of a salt with
/// cost parameters `log_n`, `r` and `p`; `None` where the parameters are refused.
pub uninterp spec fn scrypt_key(password: Seq<char>, salt: Seq<char>, log_n: u8, r: u32, p: u32) -> Option<Seq<u8>>;

/// scrypt work factor: `N = 2^KDF_LOG_N`.
pub const KDF_LOG_N: u8 = 15;

/// scrypt block size.
pub const KDF_R: u32 = 8;

/// scrypt parallelism.
pub const KDF_P: u32 = 1;

/// The session key that a password and a salt give.
pub open spec fn password_key(password: Seq<char>, salt: Seq<char>) -> Option<Seq<u8>> {
    scrypt_key(password, salt, KDF_LOG_N, KDF_R, KDF_P)
}

/// The ChaCha20-Poly1305 ciphertext (tag appended) of `plaintext` under `key` and `nonce`.
pub uninterp spec fn chacha_seal(key: Seq<u8>, nonce: Seq<u8>, plaintext: Seq<u8>) -> Seq<u8>;

/// What ChaCha20-Poly1305 decryption of `ciphertext` under `key` and `nonce` gives; `None` where
/// authentication fails.
pub uninterp spec fn chacha_open(key: Seq<u8>, nonce: Seq<u8>, ciphertext: Seq<u8>) -> Option<Seq<u8>>;

/// Plaintexts that the cipher takes: fewer than `u32::MAX` blocks of 64 bytes.
pub open spec fn sealable(plaintext: Seq<u8>) -> bool {
    plaintext.len() / 64 < 4294967295
}

/// Relies on `scrypt::scrypt` with `scrypt::Params::new(log_n, r, p, 32)`: the key depends on
/// these arguments alone, and only the parameters can be refused.
#[verifier::external_body]
fn scrypt_hash(password: &str, salt: &str, log_n: u8, r: u32, p: u32) -> (k: Option<[u8; 32]>)
    requires
        log_n <= 20,
        r <= 16,
        p <= 4,
    ensures
        match scrypt_key(password@, salt@, log_n, r, p) {
            Some(key) => k matches Some(a) && a@ == key,
            None => k is None,
        },
        r > 0 && p > 0 && log_n < 16 * r ==> k is Some,
{
    let params = scrypt::Params::new(log_n, r, p, 32).ok()?;
    let mut out = [0u8; 32];
    scrypt::scrypt(password.as_bytes(), salt.as_bytes(), &params, &mut out).ok()?;
    Some(out)
}

/// Relies on `getrandom::getrandom`: `n` bytes from the operating system's random source.
#[verifier::external_body]
pub(crate) fn random_bytes(n: usize) -> (r: Option<Vec<u8>>)
    ensures
        r matches Some(v) ==> v@.len() == n,
{
    let mut buf = vec![0u8; n];
    getrandom::getrandom(&mut buf).ok()?;
    Some(buf)
}

/// Relies on `ChaCha20Poly1305::encrypt` (aead's `Aead`), which fails only on a plaintext of
/// `u32::MAX` blocks or more.
#[verifier::external_body]
fn seal(key: &[u8; 32], nonce: &Vec<u8>, plaintext: &[u8]) -> (r: Option<Vec<u8>>)
    requires
        nonce@.len() == NONCE_LEN,
    ensures
        r matches Some(c) ==> c@ == chacha_seal(key@, nonce@, plaintext@),
        r is Some <==> sealable(plaintext@),
{
    let cipher = chacha20poly1305::ChaCha20Poly1305::new(chacha20poly1305::Key::from_slice(key));
    cipher.encrypt(chacha20poly1305::Nonce::from_slice(nonce), plaintext).ok()
}

/// Relies on `ChaCha20Poly1305::decrypt` (aead's `Aead`): it returns the plaintext of what
/// `encrypt` produced under the same key and nonce, and fails where the tag does not verify.
#[verifier::external_body]
fn open(key: &[u8; 32], nonce: &Vec<u8>, ciphertext: &Vec<u8>) -> (r: Option<Vec<u8>>)
    requires
        nonce@.len() == NONCE_LEN,
    ensures
        match chacha_open(key@, nonce@, ciphertext@) {
            Some(p) => r matches Some(v) && v@ == p,
            None => r is None,
        },
        r is None ==> forall|p: Seq<u8>| sealable(p) ==> ciphertext@ != #[trigger] chacha_seal(key@, nonce@, p),
        r matches Some(v) ==> forall|p: Seq<u8>| sealable(p) && ciphertext@ == #[trigger] chacha_seal(key@, nonce@, p) ==> v@ == p,
{
    let cipher = chacha20poly1305::ChaCha20Poly1305::new(chacha20poly1305::Key::from_slice(key));
    cipher.decrypt(chacha20poly1305::Nonce::from_slice(nonce), ciphertext.as_slice()).ok()
}

/// Relies on `String::from_utf8`: it accepts exactly the valid UTF-8 byte sequences.
#[verifier::external_body]
fn utf8_string(b: Vec<u8>) -> (r: Option<String>)
    ensures
        r is Some <==> valid_utf8(b@),
        r matches Some(s) ==> s@ == decode_utf8(b@),
{
    String::from_utf8(b).ok()
}

/// Derives the 32-byte session key from a password and the vault's salt.
pub fn derive_key(password: &str, salt: &str) -> (r: Result<[u8; 32], VaultError>)
    ensures
        match password_key(password@, salt@) {
            Some(k) => r matches Ok(a) && a@ == k,
            None => r == Err::<[u8; 32], VaultError>(VaultError::Derivation),
        },
        r is Ok,
{
    match scrypt_hash(password, salt, KDF_LOG_N, KDF_R, KDF_P) {
        Some(k) => Ok(k),
        None => Err(VaultError::Derivation),
    }
}

/// The encrypted text of `plaintext` under `key` with nonce `nonce`.
pub open spec fn vault_text(key: Seq<u8>, nonce: Seq<u8>, plaintext: Seq<char>) -> Seq<char> {
    hex_enc(nonce + chacha_seal(key, nonce, encode_utf8(plaintext)))
}

/// The plaintext that an encrypted text holds under `key`, if it authenticates.
pub open spec fn open_vault(text: Seq<char>, key: Seq<u8>) -> Option<Seq<char>> {
    match hex_dec(text) {
        Some(b) => if b.len() >= NONCE_LEN {
            match chacha_open(key, b.take(NONCE_LEN as int), b.skip(NONCE_LEN as int)) {
                Some(p) => if valid_utf8(p) {
                    Some(decode_utf8(p))
                } else {
                    None
                },
                None => None,
            }
        } else {
            None
        },
        None => None,
    }
}

fn copy_range(b: &Vec<u8>, from: usize, to: usize) -> (r: Vec<u8>)
    requires
        from <= to <= b@.len(),
    ensures
        r@ == b@.subrange(from as int, to as int),
{
    let mut out: Vec<u8> = Vec::new();
    let mut i = from;
    while i < to
        invariant
            from <= i <= to <= b@.len(),
            out@ == b@.subrange(from as int, i as int),
        decreases to - i,
    {
        out.push(b[i]);
        i = i + 1;
        assert(out@ =~= b@.subrange(from as int, i as int));
    }
    out
}

/// Encrypts `plaintext` under `key` with the 12-byte `nonce`; fails only where the plaintext
/// is too long for the cipher.
pub fn seal_vault(plaintext: &str, key: &[u8; 32], nonce: &Vec<u8>) -> (r: Result<String, VaultError>)
    requires
        nonce@.len() == NONCE_LEN,
    ensures
        sealable(encode_utf8(plaintext@)) <==> r is Ok,
        r matches Ok(c) ==> c@ == vault_text(key@, nonce@, plaintext@),
        r matches Err(e) ==> e == VaultError::Encryption,
{
    let bytes = plaintext.as_bytes();
    let sealed = match seal(key, nonce, bytes) {
        Some(c) => c,
        None => return Err(VaultError::Encryption),
    };
    let mut framed = nonce.clone();
    let mut tail = sealed;
    framed.append(&mut tail);
    let out = to_hex(framed.as_slice());
    assert(out@ == vault_text(key@, nonce@, plaintext@));
    Ok(out)
}

/// Encrypts `plaintext` under `key` with a fresh random nonce.
pub fn encrypt_vault(plaintext: &str, key: &[u8; 32]) -> (r: Result<String, VaultError>)
    ensures
        r matches Ok(c) ==> sealable(encode_utf8(plaintext@)) && exists|n: Seq<u8>| n.len() == NONCE_LEN && c@ == vault_text(key@, n, plaintext@),
        r matches Err(e) ==> e == VaultError::Encryption,
{
    match random_bytes(NONCE_LEN) {
        Some(nonce) => seal_vault(plaintext, key, &nonce),
        None => Err(VaultError::Encryption),
    }
}

/// Decrypts an encrypted vault text under `key`. Every failure is the same `Decryption` error,
/// whether the text, the key or the tag was at fault.
pub fn decrypt_vault(text: &str, key: &[u8; 32]) -> (r: Result<String, VaultError>)
    ensures
        match open_vault(text@, key@) {
            Some(p) => r matches Ok(s) && s@ == p,
            None => r == Err::<String, VaultError>(VaultError::Decryption),
        },
        forall|n: Seq<u8>, p: Seq<char>|
            n.len() == NONCE_LEN && sealable(encode_utf8(p)) && text@ == #[trigger] vault_text(key@, n, p)
                ==> (r matches Ok(s) && s@ == p),
{
    let framed = match from_hex(text) {
        Some(b) => b,
        None => return Err(VaultError::Decryption),
    };
    if framed.len() < NONCE_LEN {
        return Err(VaultError::Decryption);
    }
    let nonce = copy_range(&framed, 0, NONCE_LEN);
    let sealed = copy_range(&framed, NONCE_LEN, framed.len());
    assert(nonce@ =~= framed@.take(NONCE_LEN as int));
    assert(sealed@ =~= framed@.skip(NONCE_LEN as int));
    let opened = open(key, &nonce, &sealed);
    proof {
        assert forall|n: Seq<u8>, p: Seq<char>|
            n.len() == NONCE_LEN && sealable(encode_utf8(p)) && text@ == #[trigger] vault_text(key@, n, p)
            implies opened matches Some(v) && v@ == encode_utf8(p) by {
            let b = n + chacha_seal(key@, n, encode_utf8(p));
            lemma_hex_round_trip(b);
            assert(nonce@ =~= n);
            assert(sealed@ =~= chacha_seal(key@, n, encode_utf8(p)));
        }
    }
    let plain = match opened {
        Some(v) => v,
        None => return Err(VaultError::Decryption),
    };
    proof {
        vstd::utf8::encode_utf8_valid_utf8(text@);
    }
    match utf8_string(plain) {
        Some(s) => {
            proof {
                assert forall|n: Seq<u8>, p: Seq<char>|
                    n.len() == NONCE_LEN && sealable(encode_utf8(p)) && text@ == #[trigger] vault_text(key@, n, p)
                    implies s@ == p by {
                    vstd::utf8::encode_utf8_decode_utf8(p);
                }
            }
            Ok(s)
        },
        None => {
            proof {
                assert forall|n: Seq<u8>, p: Seq<char>|
                    n.len() == NONCE_LEN && sealable(encode_utf8(p)) && text@ == #[trigger] vault_text(key@, n, p)
                    implies false by {
                    vstd::utf8::encode_utf8_valid_utf8(p);
                }
            }
            Err(VaultError::Decryption)
        },
    }
}

} // verus!
