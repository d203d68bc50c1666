//! The authenticated envelope: a byte blob encrypted under a 32-byte
//! key with AES-256-GCM behind a fresh 12-byte nonce, laid out as
//! `nonce ‖ ciphertext-with-tag`.  Tampering is detected on decryption.

use aes_gcm::KeyInit;
use aes_gcm::aead::Aead;
use vstd::prelude::*;

use crate::rng::random_bytes;

verus! {

/// The AES-256-GCM sealing of a plaintext under a key and a 12-byte
/// nonce: the ciphertext followed by the authentication tag; a pure
/// function of the three inputs.
pub uninterp spec fn gcm_seal(key: Seq<u8>, nonce: Seq<u8>, plaintext: Seq<u8>) -> Seq<u8>;

/// Relies on `aes_gcm::Aes256Gcm` through `aead::Aead::encrypt`:
/// sealing is deterministic in key, nonce and plaintext, and fails only
/// on over-long plaintexts.
#[verifier::external_body]
fn aead_seal(key: &[u8; 32], nonce: &[u8], plaintext: &[u8]) -> (r: Option<Vec<u8>>)
    requires
        nonce@.len() == 12,
    ensures
        r is Some ==> r->0@ == gcm_seal(key@, nonce@, plaintext@),
{
    let cipher = aes_gcm::Aes256Gcm::new(key.into());
    cipher.encrypt(aes_gcm::Nonce::from_slice(nonce), plaintext).ok()
}

/// Relies on `aes_gcm::Aes256Gcm` through `aead::Aead::decrypt`:
/// decryption succeeds exactly on the sealings of this key and nonce,
/// and then returns the plaintext that was sealed.
#[verifier::external_body]
fn aead_open(key: &[u8; 32], nonce: &[u8], ciphertext: &[u8]) -> (r: Option<Vec<u8>>)
    requires
        nonce@.len() == 12,
    ensures
        r is Some ==> ciphertext@ == gcm_seal(key@, nonce@, r->0@),
        forall|pt: Seq<u8>| ciphertext@ == gcm_seal(key@, nonce@, pt) ==> r is Some && r->0@ == pt,
{
    let cipher = aes_gcm::Aes256Gcm::new(key.into());
    cipher.decrypt(aes_gcm::Nonce::from_slice(nonce), ciphertext).ok()
}

/// Encrypts a blob under the key behind a fresh random nonce.  Fails
/// only when the randomness source or the cipher itself does.
pub fn encrypt_blob(plaintext: &[u8], key: &[u8; 32]) -> (r: Option<Vec<u8>>)
    ensures
        r is Some ==> {
            &&& r->0@.len() >= 12
            &&& r->0@.skip(12) == gcm_seal(key@, r->0@.take(12), plaintext@)
        },
{
    let nonce = match random_bytes::<12>() {
        None => {
            return None;
        },
        Some(n) => n,
    };
    let sealed = match aead_seal(key, nonce.as_slice(), plaintext) {
        None => {
            return None;
        },
        Some(s) => s,
    };
    let mut out: Vec<u8> = Vec::new();
    out.extend_from_slice(nonce.as_slice());
    out.extend_from_slice(sealed.as_slice());
    proof {
        assert(out@.take(12) =~= nonce@);
        assert(out@.skip(12) =~= sealed@);
    }
    Some(out)
}

/// Decrypts a blob laid out as `nonce ‖ ciphertext-with-tag`; succeeds
/// exactly on the outputs of [`encrypt_blob`] under the same key, and
/// recovers the sealed plaintext.
pub fn decrypt_blob(bytes: &[u8], key: &[u8; 32]) -> (r: Option<Vec<u8>>)
    ensures
        r is Some ==> {
            &&& bytes@.len() >= 12
            &&& bytes@.skip(12) == gcm_seal(key@, bytes@.take(12), r->0@)
        },
        forall|pt: Seq<u8>|
            bytes@.len() >= 12 && bytes@.skip(12) == gcm_seal(key@, bytes@.take(12), pt) ==> r
                is Some && r->0@ == pt,
{
    if bytes.len() < 12 {
        return None;
    }
    let nonce = vstd::slice::slice_subrange(bytes, 0, 12);
    let ct = vstd::slice::slice_subrange(bytes, 12, bytes.len());
    proof {
        assert(nonce@ =~= bytes@.take(12));
        assert(ct@ =~= bytes@.skip(12));
    }
    aead_open(key, nonce, ct)
}

} // verus!
