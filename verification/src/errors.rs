//! Error taxonomy of the protocol.
//!
//! Every failure is classified by kind; offender addresses are carried as
//! packed 32-bit values.  No partial success: a protocol run that fails
//! yields no keystore and no signature.

use vstd::prelude::*;

verus! {

/// The ways a protocol run can fail.
#[derive(Clone, Debug, PartialEq, Eq)]
pub enum MpcError {
    /// Bad threshold versus member count, self not in members, inconsistent
    /// group ids, or an over-long message hash.
    ConfigError,
    /// One or more peers' proofs of knowledge failed; carries the offenders.
    InvalidZkp(Vec<u32>),
    /// A received secret share does not match its commitment; carries the sender.
    InvalidShare(u32),
    /// A signer's response fails the response equation; carries the sender.
    InvalidResponse(u32),
    /// The aggregated signature fails the final Schnorr check.
    InvalidSignature,
    /// A peer's commitment vector is not of the declared threshold length.
    ThresholdInflation(u32),
    /// Two signers report the same address.
    DuplicateSigner(u32),
    /// Bad derivation path syntax, a hardened index, malformed hex text,
    /// or an undecodable point.
    DerivationError,
    /// Authenticated decryption failed.
    CryptoError,
    /// A messenger failure, fatal for the run.
    TransportError,
}

} // verus!
