//! Party addresses.
//!
//! A party is addressed by a 32-bit identifier that packs a group id into the
//! high 16 bits and a member id into the low 16 bits.  Member id 0 is reserved
//! for broadcast sinks: address `(0, 0)` is the global broadcast sink and
//! `(g, 0)` the group-`g` broadcast sink.  Member ids used in secret sharing
//! are 1-based.

use vstd::prelude::*;
use vstd::string::StringSliceAdditionalSpecFns;

use crate::bytesutil::{
    all_digits, dec_val_of, find_byte, lemma_find_byte_hit, lemma_find_byte_miss,
    parse_dec_capped,
};

verus! {

/// What the text form `"<group_id>.<member_id>"` parses to: two decimal
/// 16-bit numbers joined by a single dot.
pub open spec fn parse_addr_text(s: Seq<u8>) -> Option<(u16, u16)> {
    let d = find_byte(s, 46);
    if d < 0 {
        None
    } else {
        let left = s.take(d);
        let right = s.skip(d + 1);
        if left.len() > 0 && all_digits(left) && dec_val_of(left) <= 0xFFFF && right.len() > 0
            && all_digits(right) && dec_val_of(right) <= 0xFFFF && find_byte(right, 46) < 0 {
            Some(((dec_val_of(left) as u16), (dec_val_of(right) as u16)))
        } else {
            None
        }
    }
}

/// Big-endian byte sequence of a 32-bit value.
pub open spec fn be_bytes_of_u32(x: u32) -> Seq<u8> {
    seq![
        (x / 0x1000000) as u8,
        ((x / 0x10000) % 0x100) as u8,
        ((x / 0x100) % 0x100) as u8,
        (x % 0x100) as u8,
    ]
}

/// Big-endian encoding of a 32-bit value.
pub fn u32_be_bytes(x: u32) -> (r: [u8; 4])
    ensures
        r@ == be_bytes_of_u32(x),
{
    let r = [
        (x / 0x1000000) as u8,
        ((x / 0x10000) % 0x100) as u8,
        ((x / 0x100) % 0x100) as u8,
        (x % 0x100) as u8,
    ];
    proof {
        assert(r@ =~= be_bytes_of_u32(x));
    }
    r
}

/// Address of one shard: group id in the high 16 bits, member id in the low 16.
#[derive(Clone, Copy, Debug, PartialEq, Eq, Structural, Hash)]
pub struct MpcAddr {
    pub raw: u32,
}

impl MpcAddr {
    /// The packed 32-bit value `group_id * 2^16 + member_id`.
    pub open spec fn spec_raw(&self) -> u32 {
        self.raw
    }

    pub open spec fn spec_group_id(&self) -> u16 {
        (self.raw / 0x10000) as u16
    }

    pub open spec fn spec_member_id(&self) -> u16 {
        (self.raw % 0x10000) as u16
    }

    /// Create an address from a group and a member id.
    pub fn new(group_id: u16, member_id: u16) -> (r: Self)
        ensures
            r.spec_group_id() == group_id,
            r.spec_member_id() == member_id,
            r.spec_raw() == group_id * 0x10000 + member_id,
    {
        let raw: u32 = (group_id as u32) * 0x10000 + (member_id as u32);
        MpcAddr { raw }
    }

    /// High 16 bits.
    pub fn group_id(&self) -> (r: u16)
        ensures
            r == self.spec_group_id(),
    {
        (self.raw / 0x10000) as u16
    }

    /// Low 16 bits.
    pub fn member_id(&self) -> (r: u16)
        ensures
            r == self.spec_member_id(),
    {
        (self.raw % 0x10000) as u16
    }

    /// Big-endian encoding of the packed value, as hashed into binding values.
    pub fn to_be_bytes(&self) -> (r: [u8; 4])
        ensures
            r@ == be_bytes_of_u32(self.spec_raw()),
    {
        let r = [
            (self.raw / 0x1000000) as u8,
            ((self.raw / 0x10000) % 0x100) as u8,
            ((self.raw / 0x100) % 0x100) as u8,
            (self.raw % 0x100) as u8,
        ];
        proof {
            assert(r@ =~= be_bytes_of_u32(self.raw));
        }
        r
    }

    /// The global broadcast sink, address `(0, 0)`.
    pub fn bcast_id() -> (r: Self)
        ensures
            r.spec_raw() == 0,
            r.spec_group_id() == 0,
            r.spec_member_id() == 0,
    {
        MpcAddr { raw: 0 }
    }

    /// The broadcast sink of one group, address `(group_id, 0)`.
    pub fn gcast_id(group_id: u16) -> (r: Self)
        ensures
            r.spec_group_id() == group_id,
            r.spec_member_id() == 0,
    {
        Self::new(group_id, 0)
    }

    /// The packed 32-bit value.
    pub fn as_primitive(&self) -> (r: u32)
        ensures
            r == self.spec_raw(),
    {
        self.raw
    }

    /// Rebuild an address from its packed value.
    pub fn from_primitive(raw: u32) -> (r: Self)
        ensures
            r.spec_raw() == raw,
    {
        MpcAddr { raw }
    }

    /// Parse the text form `"<group_id>.<member_id>"`.
    pub fn from_text(s: &str) -> (r: Result<Self, &'static str>)
        ensures
            r is Ok <==> parse_addr_text(s.spec_bytes()) is Some,
            r is Ok ==> ({
                let (g, m) = parse_addr_text(s.spec_bytes()).unwrap();
                r.unwrap().spec_group_id() == g && r.unwrap().spec_member_id() == m
            }),
    {
        let bytes = s.as_bytes();
        let ghost full = s.spec_bytes();
        let n = bytes.len();
        let mut d: usize = 0;
        while d < n && bytes[d] != 46
            invariant
                d <= n,
                n == full.len(),
                bytes@ == full,
                forall|j: int| 0 <= j < d ==> full[j] != 46,
            decreases n - d,
        {
            d += 1;
        }
        if d >= n {
            proof {
                lemma_find_byte_miss(full, 46);
            }
            return Err("address is not in '<group>.<member>' form");
        }
        proof {
            lemma_find_byte_hit(full, 46, d as int);
        }
        // no second dot allowed
        let mut k: usize = d + 1;
        while k < n && bytes[k] != 46
            invariant
                d + 1 <= k <= n,
                n == full.len(),
                bytes@ == full,
                forall|j: int| d + 1 <= j < k ==> full[j] != 46,
            decreases n - k,
        {
            k += 1;
        }
        proof {
            let right = full.skip(d + 1);
            assert(forall|j: int| 0 <= j < right.len() ==> right[j] == full[d + 1 + j]);
            if k < n {
                lemma_find_byte_hit(right, 46, k - d - 1);
            } else {
                lemma_find_byte_miss(right, 46);
            }
        }
        if k < n {
            return Err("address is not in '<group>.<member>' form");
        }
        proof {
            assert(full.take(d as int) =~= full.subrange(0, d as int));
            assert(full.skip(d + 1) =~= full.subrange(d + 1, n as int));
        }
        let g = match parse_dec_capped(bytes, 0, d, 0xFFFF) {
            Some(v) => v,
            None => {
                return Err("invalid group id");
            },
        };
        let m = match parse_dec_capped(bytes, d + 1, n, 0xFFFF) {
            Some(v) => v,
            None => {
                return Err("invalid member id");
            },
        };
        Ok(MpcAddr::new(g as u16, m as u16))
    }
}

/// An alias address type kept for single-group deployments; identical in
/// layout and meaning to `MpcAddr`.
#[derive(Clone, Copy, Debug, PartialEq, Eq, Structural, Hash)]
pub struct ShardId {
    pub raw: u32,
}

impl ShardId {
    /// The packed 32-bit value `group_id * 2^16 + member_id`.
    pub open spec fn spec_raw(&self) -> u32 {
        self.raw
    }

    pub open spec fn spec_group_id(&self) -> u16 {
        (self.raw / 0x10000) as u16
    }

    pub open spec fn spec_member_id(&self) -> u16 {
        (self.raw % 0x10000) as u16
    }

    /// Create an address from a group and a member id.
    pub fn new(group_id: u16, member_id: u16) -> (r: Self)
        ensures
            r.spec_group_id() == group_id,
            r.spec_member_id() == member_id,
            r.spec_raw() == group_id * 0x10000 + member_id,
    {
        let raw: u32 = (group_id as u32) * 0x10000 + (member_id as u32);
        ShardId { raw }
    }

    /// High 16 bits.
    pub fn group_id(&self) -> (r: u16)
        ensures
            r == self.spec_group_id(),
    {
        (self.raw / 0x10000) as u16
    }

    /// Low 16 bits.
    pub fn member_id(&self) -> (r: u16)
        ensures
            r == self.spec_member_id(),
    {
        (self.raw % 0x10000) as u16
    }

    /// Big-endian encoding of the packed value.
    pub fn to_be_bytes(&self) -> (r: [u8; 4])
        ensures
            r@ == be_bytes_of_u32(self.spec_raw()),
    {
        u32_be_bytes(self.raw)
    }

    /// The global broadcast sink, address `(0, 0)`.
    pub fn bcast_id() -> (r: Self)
        ensures
            r.spec_raw() == 0,
    {
        ShardId { raw: 0 }
    }

    /// The broadcast sink of one group, address `(group_id, 0)`.
    pub fn gcast_id(group_id: u16) -> (r: Self)
        ensures
            r.spec_group_id() == group_id,
            r.spec_member_id() == 0,
    {
        Self::new(group_id, 0)
    }

    /// The packed 32-bit value.
    pub fn as_primitive(&self) -> (r: u32)
        ensures
            r == self.spec_raw(),
    {
        self.raw
    }
}

} // verus!
