//! Points of the Ed25519 curve.
//!
//! A point is held as its canonical 32-byte compressed Edwards encoding.
//! The group operations are carried out by `curve25519_dalek`; the contracts
//! speak of them through uninterpreted names, one per operation, over the
//! compressed encodings.  Each operation additionally states what it returns
//! on multiples of the basepoint, which is what every honestly generated
//! point of the protocol is: there the group law turns into arithmetic on
//! discrete logarithms modulo the group order.

use vstd::prelude::*;

use curve25519_dalek::edwards::CompressedEdwardsY;
use curve25519_dalek::edwards::EdwardsPoint;
use curve25519_dalek::scalar::Scalar;
use curve25519_dalek::traits::Identity;

use crate::scalar::{add_mod, group_order, mul_mod, sub_mod, Sc};

verus! {

/// Canonical compressed encoding of `x * B`, `B` the Ed25519 basepoint.
pub uninterp spec fn pt_base(x: nat) -> Seq<u8>;

/// Canonical compressed encoding of the sum of two points.
pub uninterp spec fn pt_add(a: Seq<u8>, b: Seq<u8>) -> Seq<u8>;

/// Canonical compressed encoding of the difference of two points.
pub uninterp spec fn pt_sub(a: Seq<u8>, b: Seq<u8>) -> Seq<u8>;

/// Canonical compressed encoding of `x * P` for a point `P`.
pub uninterp spec fn pt_mul(x: nat, p: Seq<u8>) -> Seq<u8>;

/// What decompression makes of 32 bytes: `None` if they do not decode to a
/// curve point, otherwise the canonical encoding of the decoded point.
pub uninterp spec fn pt_decode(s: Seq<u8>) -> Option<Seq<u8>>;

/// A canonical, decodable compressed encoding.
pub open spec fn pt_canonical(s: Seq<u8>) -> bool {
    pt_decode(s) == Some(s)
}

/// A point of the Ed25519 curve, as its canonical compressed encoding.
#[derive(Clone, Copy, Debug, PartialEq, Eq)]
pub struct Pt {
    b: [u8; 32],
}

impl View for Pt {
    type V = Seq<u8>;

    closed spec fn view(&self) -> Seq<u8> {
        self.b@
    }
}

fn bytes32_eq(a: &[u8; 32], b: &[u8; 32]) -> (r: bool)
    ensures
        r <==> a@ =~= b@,
{
    let mut i: usize = 0;
    while i < 32
        invariant
            i <= 32,
            forall|j: int| 0 <= j < i ==> a@[j] == b@[j],
        decreases 32 - i,
    {
        if a[i] != b[i] {
            return false;
        }
        i += 1;
    }
    true
}

impl Pt {
    #[verifier::type_invariant]
    pub closed spec fn inv(self) -> bool {
        self.b@.len() == 32 && pt_canonical(self.b@)
    }

    /// What the type invariant gives: a 32-byte canonical encoding.
    pub proof fn lemma_inv(p: Pt)
        requires
            p.inv(),
        ensures
            p@.len() == 32,
            pt_canonical(p@),
    {
    }

    /// The canonical 32-byte compressed encoding.
    pub fn to_bytes(&self) -> (r: [u8; 32])
        ensures
            r@ == self@,
            pt_canonical(r@),
    {
        proof {
            use_type_invariant(self);
        }
        self.b
    }

    /// Whether two points are equal; on canonical encodings byte equality
    /// is point equality.
    pub fn pt_eq(&self, other: &Pt) -> (r: bool)
        ensures
            r <==> self@ =~= other@,
    {
        bytes32_eq(&self.b, &other.b)
    }

    /// Relies on `curve25519_dalek::edwards::EdwardsPoint::identity`: the
    /// neutral element, which is the zero multiple of the basepoint.
    #[verifier::external_body]
    pub fn identity() -> (r: Pt)
        ensures
            r@ == pt_base(0),
    {
        Pt { b: EdwardsPoint::identity().compress().to_bytes() }
    }

    /// Relies on `curve25519_dalek::edwards::EdwardsPoint::mul_base`:
    /// multiplication of the Ed25519 basepoint by a scalar.
    #[verifier::external_body]
    pub fn base_mul(s: &Sc) -> (r: Pt)
        ensures
            r@ == pt_base(s.val()),
    {
        let sc = Scalar::from_bytes_mod_order(s.to_bytes());
        Pt { b: EdwardsPoint::mul_base(&sc).compress().to_bytes() }
    }

    /// Relies on `curve25519_dalek`'s `Add` for `EdwardsPoint`: the elliptic
    /// curve group law, so on multiples of the basepoint the discrete
    /// logarithms add modulo the group order.
    #[verifier::external_body]
    pub fn pt_add_pt(a: &Pt, b: &Pt) -> (r: Pt)
        ensures
            r@ == pt_add(a@, b@),
            forall|x: nat, y: nat|
                #![trigger pt_base(x), pt_base(y)]
                x < group_order() && y < group_order() && a@ == pt_base(x) && b@ == pt_base(y)
                    ==> r@ == pt_base(add_mod(x, y)),
    {
        let pa = CompressedEdwardsY(a.b).decompress().unwrap();
        let pb = CompressedEdwardsY(b.b).decompress().unwrap();
        Pt { b: (pa + pb).compress().to_bytes() }
    }

    /// Relies on `curve25519_dalek`'s `Sub` for `EdwardsPoint`: the inverse
    /// group operation, so on multiples of the basepoint the discrete
    /// logarithms subtract modulo the group order.
    #[verifier::external_body]
    pub fn pt_sub_pt(a: &Pt, b: &Pt) -> (r: Pt)
        ensures
            r@ == pt_sub(a@, b@),
            forall|x: nat, y: nat|
                #![trigger pt_base(x), pt_base(y)]
                x < group_order() && y < group_order() && a@ == pt_base(x) && b@ == pt_base(y)
                    ==> r@ == pt_base(sub_mod(x, y)),
    {
        let pa = CompressedEdwardsY(a.b).decompress().unwrap();
        let pb = CompressedEdwardsY(b.b).decompress().unwrap();
        Pt { b: (pa - pb).compress().to_bytes() }
    }

    /// Relies on `curve25519_dalek`'s `Mul<Scalar>` for `EdwardsPoint`:
    /// scalar multiplication, which is iterated addition, so on a multiple
    /// of the basepoint the discrete logarithm multiplies modulo the group
    /// order.
    #[verifier::external_body]
    pub fn pt_mul_sc(s: &Sc, p: &Pt) -> (r: Pt)
        ensures
            r@ == pt_mul(s.val(), p@),
            forall|y: nat|
                #![trigger pt_base(y)]
                y < group_order() && p@ == pt_base(y) ==> r@ == pt_base(mul_mod(s.val(), y)),
    {
        let sc = Scalar::from_bytes_mod_order(s.to_bytes());
        let pp = CompressedEdwardsY(p.b).decompress().unwrap();
        Pt { b: (pp * sc).compress().to_bytes() }
    }

    /// Relies on `curve25519_dalek::edwards::CompressedEdwardsY::decompress`:
    /// decodes 32 bytes as a curve point if possible; the point is
    /// re-compressed so the held encoding is canonical.
    #[verifier::external_body]
    pub fn from_bytes(bytes: &Vec<u8>) -> (r: Option<Pt>)
        requires
            bytes@.len() == 32,
        ensures
            r is Some <==> pt_decode(bytes@) is Some,
            r is Some ==> Some(r.unwrap()@) == pt_decode(bytes@),
    {
        let arr: [u8; 32] = bytes.as_slice().try_into().unwrap();
        match CompressedEdwardsY(arr).decompress() {
            Some(p) => Some(Pt { b: p.compress().to_bytes() }),
            None => None,
        }
    }
}

} // verus!
