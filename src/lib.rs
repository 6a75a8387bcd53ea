//! Encrypted vault core: key derivation, authenticated encryption of the
//! secrets store, its text encoding, and the vault configuration state.

pub mod error;
pub mod text;
pub mod db;
pub mod hex;
pub mod cipher;
pub mod config;
pub mod window;
