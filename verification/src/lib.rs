//! Vault core of a local, single-user password manager.
//!
//! A username/passphrase pair is turned into an authenticated, encrypted
//! credential store: the passphrase-derived master key wraps a random data
//! key, the data key encrypts the serialized vault, and the whole file is
//! re-persisted on every mutation.  The command layer keeps at most one
//! decrypted session in memory and mediates all reads and writes to it.

pub mod encoding;
pub mod envelope;
pub mod error;
pub mod kdf;
pub mod kernel;
pub mod mem;
pub mod rng;
pub mod serial;
pub mod wrap;
