//! Key wrapping: the 32-byte data key encrypted under the master key
//! with AES-256-CTR, alongside the 16-byte wrap nonce.
//!
//! CTR mode is an XOR with a keystream determined by key and nonce, so
//! wrapping and unwrapping are the same XOR and undo one another.

use aes::cipher::{KeyIvInit, StreamCipher};
use vstd::prelude::*;

use crate::encoding::xor_bytes;
use crate::rng::random_bytes;

verus! {

/// The first 32 keystream bytes that AES-256 in CTR mode produces under
/// a key and a 16-byte initial counter block; a pure function of the two.
pub uninterp spec fn keystream_of(key: Seq<u8>, iv: Seq<u8>) -> Seq<u8>;

/// Relies on `cipher::StreamCipher::apply_keystream` for
/// `ctr::Ctr128BE<aes::Aes256>`: CTR mode XORs the data with a keystream
/// that depends only on the key and the initial counter block.
#[verifier::external_body]
fn ctr_apply(key: &[u8; 32], iv: &[u8; 16], data: &[u8; 32]) -> (r: [u8; 32])
    ensures
        r@ == xor_bytes(data@, keystream_of(key@, iv@)),
{
    let mut cipher = ctr::Ctr128BE::<aes::Aes256>::new(key.into(), iv.into());
    let mut buf = *data;
    cipher.apply_keystream(&mut buf);
    buf
}

/// Encrypts the data key under the master key with a fresh 16-byte
/// nonce; both halves of the result go to disk verbatim.  Fails only
/// when the system's randomness source does.
pub fn wrap_data_key(master_key: &[u8; 32], data_key: &[u8; 32]) -> (r: Option<([u8; 32], [u8; 16])>)
    ensures
        r is Some ==> ({
            let (wrapped, nonce) = r->0;
            wrapped@ == xor_bytes(data_key@, keystream_of(master_key@, nonce@))
        }),
{
    match random_bytes::<16>() {
        None => None,
        Some(nonce) => {
            let wrapped = ctr_apply(master_key, &nonce, data_key);
            Some((wrapped, nonce))
        },
    }
}

/// Decrypts a wrapped data key under the master key and the stored
/// nonce.  A wrong master key yields a wrong data key, which the
/// authenticated envelope then rejects.
pub fn unwrap_data_key(master_key: &[u8; 32], wrapped_key: &[u8; 32], nonce: &[u8; 16]) -> (r: [u8;
    32])
    ensures
        r@ == xor_bytes(wrapped_key@, keystream_of(master_key@, nonce@)),
{
    ctr_apply(master_key, nonce, wrapped_key)
}

/// Unwrapping a wrapped data key under the same master key and nonce
/// gives the data key back.
pub proof fn lemma_unwrap_wrap(data_key: Seq<u8>, master_key: Seq<u8>, iv: Seq<u8>)
    ensures
        xor_bytes(xor_bytes(data_key, keystream_of(master_key, iv)), keystream_of(master_key, iv))
            == data_key,
{
    crate::encoding::lemma_xor_involution(data_key, keystream_of(master_key, iv));
}

/// Tampering with the stored wrapped key never cancels out: under one
/// master key and nonce, distinct wrapped keys of equal length unwrap
/// to distinct data keys, which the authenticated envelope then
/// rejects.
pub proof fn lemma_unwrap_injective(w1: Seq<u8>, w2: Seq<u8>, master_key: Seq<u8>, iv: Seq<u8>)
    requires
        w1.len() == w2.len(),
        w1 != w2,
    ensures
        xor_bytes(w1, keystream_of(master_key, iv)) != xor_bytes(w2, keystream_of(master_key, iv)),
{
    let ks = keystream_of(master_key, iv);
    if xor_bytes(w1, ks) == xor_bytes(w2, ks) {
        crate::encoding::lemma_xor_involution(w1, ks);
        crate::encoding::lemma_xor_involution(w2, ks);
        assert(w1 == w2);
    }
}

} // verus!
