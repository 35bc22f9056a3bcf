//! Hexadecimal text for scalars and points.
//!
//! Persisted keystores carry every scalar and point as lowercase hex text;
//! the codec is the computational core of keystore serialization, so it is
//! verified, including the law that decoding inverts encoding.

use vstd::prelude::*;

use crate::errors::MpcError;
use crate::point::{pt_decode, Pt};
use crate::scalar::{group_order, le_val, Sc};

verus! {

/// The lowercase hex digit of a value below 16.
pub open spec fn hex_digit_of(n: nat) -> u8 {
    if n < 10 {
        (48 + n) as u8
    } else {
        (87 + n) as u8
    }
}

/// An ASCII hex digit, either case.
pub open spec fn is_hex_digit(b: u8) -> bool {
    (48 <= b <= 57) || (97 <= b <= 102) || (65 <= b <= 70)
}

/// The value of an ASCII hex digit.
pub open spec fn hex_val(b: u8) -> nat {
    if 48 <= b <= 57 {
        (b - 48) as nat
    } else if 97 <= b <= 102 {
        (b - 87) as nat
    } else {
        (b - 55) as nat
    }
}

/// The lowercase hex text of a byte string, two digits per byte.
pub open spec fn hex_of(s: Seq<u8>) -> Seq<u8>
    decreases s.len(),
{
    if s.len() == 0 {
        Seq::<u8>::empty()
    } else {
        hex_of(s.drop_last()) + seq![
            hex_digit_of((s.last() / 16) as nat),
            hex_digit_of((s.last() % 16) as nat),
        ]
    }
}

/// Every position of a hex text holds a digit.
pub open spec fn all_hex_digits(s: Seq<u8>) -> bool {
    forall|i: int| 0 <= i < s.len() ==> is_hex_digit(#[trigger] s[i])
}

/// The bytes written by a hex text, one per digit pair.
pub open spec fn hex_bytes_of(s: Seq<u8>) -> Seq<u8> {
    Seq::new((s.len() / 2) as nat, |i: int| (16 * hex_val(s[2 * i]) + hex_val(s[2 * i + 1])) as u8)
}

/// Encode bytes as lowercase hex text.
pub fn bytes_to_hex(v: &Vec<u8>) -> (r: Vec<u8>)
    ensures
        r@ == hex_of(v@),
        r@.len() == 2 * v@.len(),
{
    let mut out: Vec<u8> = Vec::new();
    let mut i: usize = 0;
    proof {
        assert(v@.take(0) =~= Seq::<u8>::empty());
    }
    while i < v.len()
        invariant
            i <= v@.len(),
            out@ == hex_of(v@.take(i as int)),
            out@.len() == 2 * i,
        decreases v@.len() - i,
    {
        let b = v[i];
        let hi = b / 16;
        let lo = b % 16;
        out.push(if hi < 10 { 48 + hi } else { 87 + hi });
        out.push(if lo < 10 { 48 + lo } else { 87 + lo });
        proof {
            assert(v@.take(i + 1).drop_last() =~= v@.take(i as int));
            assert(v@.take(i + 1).last() == v@[i as int]);
            assert(out@ =~= hex_of(v@.take(i + 1)));
        }
        i += 1;
    }
    proof {
        assert(v@.take(v@.len() as int) =~= v@);
    }
    out
}

/// Decode hex text, either case, into bytes.  Fails exactly on an odd
/// length or a byte that is no hex digit.
pub fn hex_to_bytes(s: &Vec<u8>) -> (r: Result<Vec<u8>, MpcError>)
    ensures
        r is Ok <==> (s@.len() % 2 == 0 && all_hex_digits(s@)),
        r is Ok ==> r.unwrap()@ == hex_bytes_of(s@),
        r is Err ==> r == Err::<Vec<u8>, MpcError>(MpcError::DerivationError),
{
    if s.len() % 2 != 0 {
        // an odd length cannot be all pairs; some text is malformed
        return Err(MpcError::DerivationError);
    }
    let mut out: Vec<u8> = Vec::new();
    let mut i: usize = 0;
    while i < s.len() / 2
        invariant
            i <= s@.len() / 2,
            s@.len() % 2 == 0,
            out@.len() == i,
            forall|k: int| 0 <= k < 2 * i ==> is_hex_digit(#[trigger] s@[k]),
            forall|k: int|
                0 <= k < i ==> (#[trigger] out@[k]) == 16 * hex_val(s@[2 * k]) + hex_val(
                    s@[2 * k + 1],
                ),
        decreases s@.len() / 2 - i,
    {
        let hi = s[2 * i];
        let lo = s[2 * i + 1];
        let hv = match hex_digit_value(hi) {
            Some(v) => v,
            None => {
                return Err(MpcError::DerivationError);
            },
        };
        let lv = match hex_digit_value(lo) {
            Some(v) => v,
            None => {
                return Err(MpcError::DerivationError);
            },
        };
        out.push(16 * hv + lv);
        i += 1;
    }
    proof {
        assert(out@ =~= hex_bytes_of(s@));
    }
    Ok(out)
}

/// The value of one hex digit, or nothing.
fn hex_digit_value(b: u8) -> (r: Option<u8>)
    ensures
        r is Some <==> is_hex_digit(b),
        r is Some ==> r.unwrap() == hex_val(b) && r.unwrap() < 16,
{
    if 48 <= b && b <= 57 {
        Some(b - 48)
    } else if 97 <= b && b <= 102 {
        Some(b - 87)
    } else if 65 <= b && b <= 70 {
        Some(b - 55)
    } else {
        None
    }
}

/// Decoding inverts encoding: the hex text of any byte string is even,
/// all digits, and reading its digit pairs gives back the bytes.
pub proof fn lemma_hex_roundtrip(s: Seq<u8>)
    ensures
        hex_of(s).len() == 2 * s.len(),
        all_hex_digits(hex_of(s)),
        forall|i: int|
            0 <= i < s.len() ==> 16 * hex_val(#[trigger] hex_of(s)[2 * i]) + hex_val(
                hex_of(s)[2 * i + 1],
            ) == s[i],
        hex_bytes_of(hex_of(s)) == s,
    decreases s.len(),
{
    if s.len() > 0 {
        lemma_hex_roundtrip(s.drop_last());
        let h = hex_of(s);
        let hp = hex_of(s.drop_last());
        assert forall|i: int| 0 <= i < h.len() implies is_hex_digit(#[trigger] h[i]) by {
            if i < hp.len() {
                assert(h[i] == hp[i]);
            }
        }
        assert forall|i: int|
            0 <= i < s.len() implies 16 * hex_val(#[trigger] hex_of(s)[2 * i]) + hex_val(
            hex_of(s)[2 * i + 1],
        ) == s[i] by {
            if i < s.len() - 1 {
                assert(h[2 * i] == hp[2 * i]);
                assert(h[2 * i + 1] == hp[2 * i + 1]);
                assert(s.drop_last()[i] == s[i]);
            } else {
                assert(h[2 * i] == hex_digit_of((s.last() / 16) as nat));
                assert(h[2 * i + 1] == hex_digit_of((s.last() % 16) as nat));
            }
        }
    }
    assert(hex_bytes_of(hex_of(s)) =~= s);
}

/// The hex text of a scalar's canonical encoding.
pub fn scalar_to_hex(s: &Sc) -> (r: Vec<u8>)
    ensures
        r@ == hex_of(s@),
        r@.len() == 64,
{
    proof {
        use_type_invariant(s);
        Sc::lemma_inv(*s);
    }
    let b = s.to_bytes();
    let mut v: Vec<u8> = Vec::new();
    crate::bytesutil::append_arr(&mut v, &b);
    proof {
        assert(v@ =~= s@);
    }
    bytes_to_hex(&v)
}

/// The hex text of a point's compressed encoding.
pub fn point_to_hex(p: &Pt) -> (r: Vec<u8>)
    ensures
        r@ == hex_of(p@),
        r@.len() == 64,
{
    proof {
        use_type_invariant(p);
        Pt::lemma_inv(*p);
    }
    let b = p.to_bytes();
    let mut v: Vec<u8> = Vec::new();
    crate::bytesutil::append_arr(&mut v, &b);
    proof {
        assert(v@ =~= p@);
    }
    bytes_to_hex(&v)
}

/// Parse a scalar from 64 hex digits; the value is reduced modulo the
/// group order.
pub fn scalar_from_hex(s: &Vec<u8>) -> (r: Result<Sc, MpcError>)
    ensures
        r is Ok <==> (s@.len() == 64 && all_hex_digits(s@)),
        r is Ok ==> r.unwrap().val() == le_val(hex_bytes_of(s@)) % group_order(),
        r is Err ==> r == Err::<Sc, MpcError>(MpcError::DerivationError),
{
    if s.len() != 64 {
        return Err(MpcError::DerivationError);
    }
    let bytes = hex_to_bytes(s)?;
    Ok(Sc::from_bytes_mod_order(&bytes))
}

/// Parse a point from 64 hex digits; the bytes must decode to a curve
/// point.  Succeeds exactly on well-formed hex text whose bytes decode.
pub fn point_from_hex(s: &Vec<u8>) -> (r: Result<Pt, MpcError>)
    ensures
        r is Ok <==> (s@.len() == 64 && all_hex_digits(s@) && pt_decode(hex_bytes_of(s@)) is Some),
        r is Ok ==> Some(r.unwrap()@) == pt_decode(hex_bytes_of(s@)),
        r is Err ==> r == Err::<Pt, MpcError>(MpcError::DerivationError),
{
    if s.len() != 64 {
        return Err(MpcError::DerivationError);
    }
    let bytes = hex_to_bytes(s)?;
    match Pt::from_bytes(&bytes) {
        Some(p) => Ok(p),
        None => Err(MpcError::DerivationError),
    }
}

} // verus!
