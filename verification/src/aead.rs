//! AES-256-GCM framing for encrypted share delivery.
//!
//! A packed ciphertext carries the 12-byte nonce in the field named `tag`,
//! a naming kept for wire compatibility.  The associated data is 16 zero
//! bytes, likewise kept for wire compatibility.

use vstd::prelude::*;

use aes_gcm::aead::{Aead, Payload};
use aes_gcm::KeyInit;
use rand::RngCore;

use crate::errors::MpcError;

verus! {

/// An encrypted share: ciphertext plus the 12-byte nonce (named `tag`).
pub struct AEAD {
    pub ciphertext: Vec<u8>,
    pub tag: Vec<u8>,
}

/// What AES-256-GCM decryption with the protocol's fixed associated data
/// makes of a key, a nonce and a ciphertext: the plaintext, or nothing if
/// authentication fails.
pub uninterp spec fn aead_open(key: Seq<u8>, nonce: Seq<u8>, ct: Seq<u8>) -> Option<Seq<u8>>;

/// Relies on `aes_gcm::Aes256Gcm::encrypt` with a fresh random nonce:
/// whatever nonce is drawn, decrypting the package with the same key
/// restores the plaintext, and the ciphertext is the plaintext plus the
/// 16-byte authentication tag.
#[verifier::external_body]
pub fn aes_encrypt(key: &Vec<u8>, plaintext: &Vec<u8>) -> (r: Result<AEAD, MpcError>)
    requires
        key@.len() == 32,
    ensures
        r is Ok ==> r.unwrap().tag@.len() == 12,
        r is Ok ==> r.unwrap().ciphertext@.len() == plaintext@.len() + 16,
        r is Ok ==> aead_open(key@, r.unwrap().tag@, r.unwrap().ciphertext@) == Some(plaintext@),
        r is Err ==> r matches Err(MpcError::CryptoError),
{
    let aes_key = aes_gcm::Key::<aes_gcm::Aes256Gcm>::from_slice(key.as_slice());
    let cipher = aes_gcm::Aes256Gcm::new(aes_key);
    let mut nonce = [0u8; 12];
    rand::rngs::OsRng.fill_bytes(&mut nonce);
    let aad = [0u8; 16];
    let payload = Payload { msg: plaintext.as_slice(), aad: &aad };
    match cipher.encrypt(aes_gcm::Nonce::from_slice(&nonce), payload) {
        Ok(ciphertext) => Ok(AEAD { ciphertext, tag: nonce.to_vec() }),
        Err(_) => Err(MpcError::CryptoError),
    }
}

/// Relies on `aes_gcm::Aes256Gcm::decrypt` with the protocol's fixed
/// associated data: a pure function of key, nonce and ciphertext that
/// either authenticates and restores the plaintext or fails.
#[verifier::external_body]
pub fn aes_decrypt(key: &Vec<u8>, aead_pack: &AEAD) -> (r: Result<Vec<u8>, MpcError>)
    requires
        key@.len() == 32,
        aead_pack.tag@.len() == 12,
    ensures
        r is Ok <==> aead_open(key@, aead_pack.tag@, aead_pack.ciphertext@) is Some,
        r is Ok ==> Some(r.unwrap()@) == aead_open(key@, aead_pack.tag@, aead_pack.ciphertext@),
        r is Err ==> r matches Err(MpcError::CryptoError),
{
    let aes_key = aes_gcm::Key::<aes_gcm::Aes256Gcm>::from_slice(key.as_slice());
    let cipher = aes_gcm::Aes256Gcm::new(aes_key);
    let aad = [0u8; 16];
    let payload = Payload { msg: aead_pack.ciphertext.as_slice(), aad: &aad };
    match cipher.decrypt(aes_gcm::Nonce::from_slice(aead_pack.tag.as_slice()), payload) {
        Ok(plaintext) => Ok(plaintext),
        Err(_) => Err(MpcError::CryptoError),
    }
}

} // verus!
