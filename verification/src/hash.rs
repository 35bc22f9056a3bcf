//! Hash primitives: SHA-256, SHA-512 and HMAC-SHA-512.
//!
//! The digests themselves are outside computations; each is referred to by
//! an uninterpreted name, a pure function of the input bytes.  What the
//! protocol verifies is the bit-exact assembly of every hash input, done in
//! the callers.

use vstd::prelude::*;

use hmac::Mac;
use sha2::Digest;

verus! {

/// The 32-byte SHA-256 digest of a byte string.
pub uninterp spec fn sha256_of(data: Seq<u8>) -> Seq<u8>;

/// The 64-byte SHA-512 digest of a byte string.
pub uninterp spec fn sha512_of(data: Seq<u8>) -> Seq<u8>;

/// The 64-byte HMAC-SHA-512 tag of a byte string under a key.
pub uninterp spec fn hmac_sha512_of(key: Seq<u8>, data: Seq<u8>) -> Seq<u8>;

/// Relies on `sha2::Sha256`: the digest depends on the input bytes alone
/// and is 32 bytes long.
#[verifier::external_body]
pub fn sha256(data: &Vec<u8>) -> (r: Vec<u8>)
    ensures
        r@ == sha256_of(data@),
        r@.len() == 32,
{
    sha2::Sha256::digest(data.as_slice()).to_vec()
}

/// Relies on `sha2::Sha512`: the digest depends on the input bytes alone
/// and is 64 bytes long.
#[verifier::external_body]
pub fn sha512(data: &Vec<u8>) -> (r: Vec<u8>)
    ensures
        r@ == sha512_of(data@),
        r@.len() == 64,
{
    sha2::Sha512::digest(data.as_slice()).to_vec()
}

/// Relies on `hmac::Hmac` over `sha2::Sha512`: the tag depends on key and
/// input bytes alone and is 64 bytes long; HMAC accepts keys of any length.
#[verifier::external_body]
pub fn hmac_sha512(key: &Vec<u8>, data: &Vec<u8>) -> (r: Vec<u8>)
    ensures
        r@ == hmac_sha512_of(key@, data@),
        r@.len() == 64,
{
    let mut mac = <hmac::Hmac<sha2::Sha512> as Mac>::new_from_slice(key.as_slice()).unwrap();
    mac.update(data.as_slice());
    mac.finalize().into_bytes().to_vec()
}

} // verus!
