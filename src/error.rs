//! Failures of the vault core.

use vstd::prelude::*;

verus! {

/// Why an operation of the vault failed.
#[derive(PartialEq, Eq, Structural, Clone, Copy, Debug)]
pub enum VaultError {
    /// The configuration text is not a valid configuration.
    ConfigParse,
    /// The configuration file could not be created or written.
    ConfigWrite,
    /// The password-hashing primitive rejected its input.
    Derivation,
    /// No randomness could be had, or the plaintext was too long for the cipher.
    Encryption,
    /// Wrong key or corrupted ciphertext.
    Decryption,
    /// The payload is not a valid secrets store text.
    MalformedStore,
    /// An encrypted vault was saved without a session key.
    NotUnlocked,
}

} // verus!
