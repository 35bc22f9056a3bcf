//! Threshold Schnorr (FROST-style) signing over curve25519.
//!
//! N parties jointly generate one Ed25519-compatible public key without any
//! party ever holding the private key, then produce signatures that require a
//! configurable threshold of signers.  The crate also supports BIP32-style
//! non-hardened child-key derivation so a derived public key can be signed
//! for without reconstructing the master secret.

pub mod addr;
pub mod aead;
pub mod bytesutil;
pub mod dkg;
pub mod errors;
pub mod hash;
pub mod hd;
pub mod hexcodec;
pub mod keygen;
pub mod point;
pub mod scalar;
pub mod shard;
pub mod sign;
pub mod signing;
pub mod vss;
pub mod wire;
