//! Key derivation: a passphrase and a username-salt become the 32-byte
//! master key, via PBKDF2-HMAC-SHA256 at 600 000 iterations.

use vstd::prelude::*;

verus! {

/// The key that PBKDF2-HMAC-SHA256 at 600 000 iterations and output
/// length 32 derives from a passphrase and a salt; a pure function of
/// the two inputs.
pub uninterp spec fn master_key_of(password: Seq<u8>, salt: Seq<u8>) -> Seq<u8>;

/// Relies on `pbkdf2::pbkdf2_hmac_array` with `sha2::Sha256`: the
/// derived key depends only on the passphrase, the salt, the iteration
/// count (fixed here at 600 000) and the output length (32).
#[verifier::external_body]
pub fn derive_master_key(password: &[u8], username: &[u8]) -> (r: [u8; 32])
    ensures
        r@ == master_key_of(password@, username@),
{
    pbkdf2::pbkdf2_hmac_array::<sha2::Sha256, 32>(password, username, 600_000)
}

} // verus!
