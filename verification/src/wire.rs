//! Plain wire-level records of the mailbox transport.
//!
//! The mailbox keys an object by `(topic, src, dst)`; these records are the
//! shapes that cross the transport boundary.  The transport itself lives
//! outside the library; these types only carry plain values.

use vstd::prelude::*;

verus! {

/// One mailbox message: an object posted under `(topic, src, dst)`; an
/// absent object makes the message an index for polling.
pub struct Message {
    pub topic: String,
    pub src: u32,
    pub dst: u32,
    pub obj: Option<Vec<u8>>,
}

/// A session signup: the party number assigned by the mailbox service and
/// the run's identifier.
pub struct PartySignup {
    pub number: u32,
    pub uuid: String,
}

/// A polling index into the mailbox.
pub struct Index {
    pub key: String,
}

/// A stored mailbox entry.
pub struct Entry {
    pub key: String,
    pub value: String,
}

/// The numeric threshold parameters of a run.
pub struct Parameters {
    pub threshold: u32,
    pub share_count: u32,
}

/// The threshold parameters in their text form.
pub struct Params {
    pub threshold: String,
    pub parties: String,
    pub share_count: String,
}

} // verus!
