//! Scalars of the curve25519 prime-order field.
//!
//! A scalar is held as its canonical 32-byte little-endian encoding; its
//! mathematical value is always below the group order.  All arithmetic is
//! carried out by `curve25519_dalek`, whose scalar type keeps results in
//! canonical reduced form; the contracts state the arithmetic exactly, modulo
//! the group order.

use vstd::prelude::*;

use curve25519_dalek::scalar::Scalar;
use rand::rngs::OsRng;

verus! {

/// The order of the prime-order group generated by the Ed25519 basepoint:
/// `2^252 + 27742317777372353535851937790883648493`.
pub open spec fn group_order() -> nat {
    7237005577332262213973186563042994240857116359379907606001950938285454250989nat
}

/// Addition modulo the group order.
pub open spec fn add_mod(a: nat, b: nat) -> nat {
    (a + b) % group_order()
}

/// Subtraction modulo the group order, for operands below the group order.
pub open spec fn sub_mod(a: nat, b: nat) -> nat {
    (((a + group_order() - b) as int) % (group_order() as int)) as nat
}

/// Multiplication modulo the group order.
pub open spec fn mul_mod(a: nat, b: nat) -> nat {
    (a * b) % group_order()
}

/// Adding and subtracting the same value modulo the group order cancels.
pub proof fn lemma_add_sub_cancel(k: nat, m: nat)
    requires
        k < group_order(),
        m < group_order(),
    ensures
        sub_mod(add_mod(k, m), m) == k,
{
    let l = group_order() as int;
    let ki = k as int;
    let mi = m as int;
    vstd::arithmetic::div_mod::lemma_mod_bound(ki + mi, l);
    let s = (ki + mi) % l;
    vstd::arithmetic::div_mod::lemma_mod_add_multiples_vanish(s - mi, l);
    vstd::arithmetic::div_mod::lemma_sub_mod_noop(ki + mi, mi, l);
    vstd::arithmetic::div_mod::lemma_small_mod(k, group_order());
    vstd::arithmetic::div_mod::lemma_small_mod(m, group_order());
    assert((s + l - mi) % l == (s - mi) % l);
    assert((s - mi) % l == ((ki + mi) % l - mi % l) % l);
    assert(((ki + mi) % l - mi % l) % l == (ki + mi - mi) % l);
    assert((ki + mi - mi) % l == ki);
}

/// Subtracting and then adding back modulo the group order restores the
/// value: `p + (n - p) == n (mod q)`.
pub proof fn lemma_sub_then_add(n: nat, p: nat)
    requires
        n < group_order(),
        p < group_order(),
    ensures
        add_mod(p, sub_mod(n, p)) == n % group_order(),
{
    let l = group_order() as int;
    let ni = n as int;
    let pi = p as int;
    vstd::arithmetic::div_mod::lemma_mod_bound(ni + l - pi, l);
    vstd::arithmetic::div_mod::lemma_add_mod_noop_right(pi, ni + l - pi, l);
    vstd::arithmetic::div_mod::lemma_mod_add_multiples_vanish(ni, l);
    assert((pi + (ni + l - pi)) % l == (ni + l) % l);
    vstd::arithmetic::div_mod::lemma_small_mod(n, group_order());
}

/// Value of a little-endian byte sequence.
pub open spec fn le_val(s: Seq<u8>) -> nat
    decreases s.len(),
{
    if s.len() == 0 {
        0
    } else {
        (s[0] as nat) + 256 * le_val(s.skip(1))
    }
}

pub proof fn lemma_le_val_zero(s: Seq<u8>)
    requires
        forall|i: int| 0 <= i < s.len() ==> s[i] == 0,
    ensures
        le_val(s) == 0,
    decreases s.len(),
{
    if s.len() > 0 {
        lemma_le_val_zero(s.skip(1));
    }
}

/// The little-endian encoding of a value in a fixed number of bytes.
pub open spec fn le_bytes(v: nat, n: nat) -> Seq<u8>
    decreases n,
{
    if n == 0 {
        Seq::<u8>::empty()
    } else {
        seq![(v % 256) as u8] + le_bytes(v / 256, (n - 1) as nat)
    }
}

/// At a fixed length the little-endian value determines the bytes:
/// re-encoding the value of a byte string gives the string back.
pub proof fn lemma_le_bytes_of_val(b: Seq<u8>)
    ensures
        le_bytes(le_val(b), b.len()) == b,
    decreases b.len(),
{
    if b.len() > 0 {
        let v = le_val(b);
        vstd::arithmetic::div_mod::lemma_fundamental_div_mod_converse(
            v as int,
            256,
            le_val(b.skip(1)) as int,
            b[0] as int,
        );
        lemma_le_bytes_of_val(b.skip(1));
        assert(le_bytes(v, b.len()) =~= b);
    }
}

/// A byte string has value zero exactly when every byte is zero.
pub proof fn lemma_le_val_zero_iff(s: Seq<u8>)
    ensures
        (le_val(s) == 0) <==> (forall|i: int| 0 <= i < s.len() ==> s[i] == 0),
    decreases s.len(),
{
    if s.len() > 0 {
        lemma_le_val_zero_iff(s.skip(1));
        if le_val(s) == 0 {
            assert forall|i: int| 0 <= i < s.len() implies s[i] == 0 by {
                if i > 0 {
                    assert(s.skip(1)[i - 1] == s[i]);
                }
            }
        } else {
            if forall|i: int| 0 <= i < s.len() ==> s[i] == 0 {
                assert(forall|i: int| 0 <= i < s.skip(1).len() ==> s.skip(1)[i] == s[i + 1]);
                lemma_le_val_zero(s.skip(1));
            }
        }
    }
}

/// A scalar modulo the group order, as its canonical little-endian encoding.
#[derive(Clone, Copy, Debug, PartialEq, Eq)]
pub struct Sc {
    b: [u8; 32],
}

impl View for Sc {
    type V = Seq<u8>;

    closed spec fn view(&self) -> Seq<u8> {
        self.b@
    }
}

impl Sc {
    /// The mathematical value of this scalar.
    pub open spec fn val(&self) -> nat {
        le_val(self@)
    }

    #[verifier::type_invariant]
    pub closed spec fn inv(self) -> bool {
        self.b@.len() == 32 && le_val(self.b@) < group_order()
    }

    /// What the type invariant gives: a 32-byte canonical encoding of a
    /// value below the group order.
    pub proof fn lemma_inv(s: Sc)
        requires
            s.inv(),
        ensures
            s@.len() == 32,
            s.val() < group_order(),
    {
    }

    /// Whether this scalar is zero.
    pub fn is_zero(&self) -> (r: bool)
        ensures
            r <==> self.val() == 0,
    {
        proof {
            lemma_le_val_zero_iff(self.b@);
        }
        let mut i: usize = 0;
        while i < 32
            invariant
                i <= 32,
                self.b@.len() == 32,
                le_val(self.b@) == 0 <==> (forall|j: int| 0 <= j < 32 ==> self.b@[j] == 0),
                forall|j: int| 0 <= j < i ==> self.b@[j] == 0,
            decreases 32 - i,
        {
            if self.b[i] != 0 {
                return false;
            }
            i += 1;
        }
        true
    }

    /// The canonical 32-byte little-endian encoding.
    pub fn to_bytes(&self) -> (r: [u8; 32])
        ensures
            r@ == self@,
    {
        self.b
    }

    /// The scalar zero.
    pub fn zero() -> (r: Self)
        ensures
            r.val() == 0,
    {
        let b = [0u8; 32];
        proof {
            lemma_le_val_zero(b@);
        }
        Sc { b }
    }

    /// The scalar one.
    pub fn one() -> (r: Self)
        ensures
            r.val() == 1,
    {
        let b = [
            1u8, 0u8, 0u8, 0u8, 0u8, 0u8, 0u8, 0u8, 0u8, 0u8, 0u8, 0u8, 0u8, 0u8, 0u8, 0u8, 0u8,
            0u8, 0u8, 0u8, 0u8, 0u8, 0u8, 0u8, 0u8, 0u8, 0u8, 0u8, 0u8, 0u8, 0u8, 0u8,
        ];
        proof {
            lemma_le_val_zero(b@.skip(1));
        }
        Sc { b }
    }

    /// Overwrite the encoding with zeros.
    pub fn zeroize(&mut self)
        ensures
            final(self).val() == 0,
    {
        let b = [0u8; 32];
        proof {
            lemma_le_val_zero(b@);
        }
        *self = Sc { b };
    }

    /// Relies on `curve25519_dalek::scalar::Scalar`: addition modulo the
    /// group order, result in canonical form.
    #[verifier::external_body]
    pub fn sc_add(a: &Sc, b: &Sc) -> (r: Sc)
        ensures
            r.val() == add_mod(a.val(), b.val()),
    {
        let x = Scalar::from_bytes_mod_order(a.b) + Scalar::from_bytes_mod_order(b.b);
        Sc { b: x.to_bytes() }
    }

    /// Relies on `curve25519_dalek::scalar::Scalar`: subtraction modulo the
    /// group order, result in canonical form.
    #[verifier::external_body]
    pub fn sc_sub(a: &Sc, b: &Sc) -> (r: Sc)
        ensures
            r.val() == sub_mod(a.val(), b.val()),
    {
        let x = Scalar::from_bytes_mod_order(a.b) - Scalar::from_bytes_mod_order(b.b);
        Sc { b: x.to_bytes() }
    }

    /// Relies on `curve25519_dalek::scalar::Scalar`: multiplication modulo
    /// the group order, result in canonical form.
    #[verifier::external_body]
    pub fn sc_mul(a: &Sc, b: &Sc) -> (r: Sc)
        ensures
            r.val() == mul_mod(a.val(), b.val()),
    {
        let x = Scalar::from_bytes_mod_order(a.b) * Scalar::from_bytes_mod_order(b.b);
        Sc { b: x.to_bytes() }
    }

    /// Relies on `curve25519_dalek::scalar::Scalar::invert`: the
    /// multiplicative inverse modulo the (prime) group order.
    #[verifier::external_body]
    pub fn sc_invert(a: &Sc) -> (r: Sc)
        requires
            a.val() != 0,
        ensures
            (r.val() * a.val()) % group_order() == 1,
    {
        let x = Scalar::from_bytes_mod_order(a.b).invert();
        Sc { b: x.to_bytes() }
    }

    /// Relies on `curve25519_dalek::scalar::Scalar::from_bytes_mod_order`:
    /// reduces a 256-bit little-endian integer modulo the group order.
    #[verifier::external_body]
    pub fn from_bytes_mod_order(bytes: &Vec<u8>) -> (r: Sc)
        requires
            bytes@.len() == 32,
        ensures
            r.val() == le_val(bytes@) % group_order(),
    {
        let arr: [u8; 32] = bytes.as_slice().try_into().unwrap();
        Sc { b: Scalar::from_bytes_mod_order(arr).to_bytes() }
    }

    /// Relies on `curve25519_dalek::scalar::Scalar::from_bytes_mod_order_wide`:
    /// reduces a 512-bit little-endian integer modulo the group order.
    #[verifier::external_body]
    pub fn from_bytes_mod_order_wide(bytes: &Vec<u8>) -> (r: Sc)
        requires
            bytes@.len() == 64,
        ensures
            r.val() == le_val(bytes@) % group_order(),
    {
        let arr: [u8; 64] = bytes.as_slice().try_into().unwrap();
        Sc { b: Scalar::from_bytes_mod_order_wide(&arr).to_bytes() }
    }

    /// Relies on `From<u64> for curve25519_dalek::scalar::Scalar`; every
    /// 64-bit value is below the group order.
    #[verifier::external_body]
    pub fn from_u64(x: u64) -> (r: Sc)
        ensures
            r.val() == x,
    {
        Sc { b: Scalar::from(x).to_bytes() }
    }

    /// Relies on `curve25519_dalek::scalar::Scalar::random`: a scalar drawn
    /// from the operating system's randomness; nothing is promised of the
    /// value.
    #[verifier::external_body]
    pub fn random() -> (r: Sc)
    {
        Sc { b: Scalar::random(&mut OsRng).to_bytes() }
    }
}

} // verus!
