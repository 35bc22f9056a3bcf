//! Byte-string helpers: concatenation and decimal text.
//!
//! Hash inputs of the protocol are assembled byte for byte; their exact
//! layout is part of the wire contract, so the assembly is verified.

use vstd::prelude::*;

verus! {

/// Append a byte vector.
pub fn append_bytes(dst: &mut Vec<u8>, src: &Vec<u8>)
    ensures
        final(dst)@ == old(dst)@ + src@,
{
    let mut i: usize = 0;
    while i < src.len()
        invariant
            i <= src@.len(),
            dst@ == old(dst)@ + src@.take(i as int),
        decreases src@.len() - i,
    {
        dst.push(src[i]);
        proof {
            assert(old(dst)@ + src@.take(i as int) + seq![src@[i as int]] =~= old(dst)@
                + src@.take(i + 1));
        }
        i += 1;
    }
    proof {
        assert(src@.take(src@.len() as int) =~= src@);
    }
}

/// Append a fixed-size byte array.
pub fn append_arr<const N: usize>(dst: &mut Vec<u8>, src: &[u8; N])
    ensures
        final(dst)@ == old(dst)@ + src@,
{
    let mut i: usize = 0;
    while i < N
        invariant
            i <= src@.len(),
            src@.len() == N,
            dst@ == old(dst)@ + src@.take(i as int),
        decreases src@.len() - i,
    {
        dst.push(src[i]);
        proof {
            assert(old(dst)@ + src@.take(i as int) + seq![src@[i as int]] =~= old(dst)@
                + src@.take(i + 1));
        }
        i += 1;
    }
    proof {
        assert(src@.take(src@.len() as int) =~= src@);
    }
}

/// Append a byte slice.
pub fn append_slice(dst: &mut Vec<u8>, src: &[u8])
    ensures
        final(dst)@ == old(dst)@ + src@,
{
    let mut i: usize = 0;
    while i < src.len()
        invariant
            i <= src@.len(),
            dst@ == old(dst)@ + src@.take(i as int),
        decreases src@.len() - i,
    {
        dst.push(src[i]);
        proof {
            assert(old(dst)@ + src@.take(i as int) + seq![src@[i as int]] =~= old(dst)@
                + src@.take(i + 1));
        }
        i += 1;
    }
    proof {
        assert(src@.take(src@.len() as int) =~= src@);
    }
}

/// Overwrite every byte of a vector with zeros.
pub fn zeroize_bytes(v: &mut Vec<u8>)
    ensures
        final(v)@.len() == old(v)@.len(),
        forall|i: int| 0 <= i < final(v)@.len() ==> #[trigger] final(v)@[i] == 0,
{
    let mut i: usize = 0;
    while i < v.len()
        invariant
            i <= v@.len(),
            v@.len() == old(v)@.len(),
            forall|k: int| 0 <= k < i ==> #[trigger] v@[k] == 0,
        decreases v@.len() - i,
    {
        v.set(i, 0);
        i += 1;
    }
}

/// The ASCII decimal digits of a number, most significant first.
pub open spec fn dec_digits_of(x: nat) -> Seq<u8>
    decreases x,
{
    if x < 10 {
        seq![(48 + x) as u8]
    } else {
        dec_digits_of(x / 10).push((48 + x % 10) as u8)
    }
}

/// ASCII decimal text of a 16-bit number.
pub fn dec_bytes(x: u16) -> (r: Vec<u8>)
    ensures
        r@ == dec_digits_of(x as nat),
    decreases x,
{
    if x < 10 {
        let mut v: Vec<u8> = Vec::new();
        v.push(48 + x as u8);
        proof {
            assert(v@ =~= dec_digits_of(x as nat));
        }
        v
    } else {
        let mut v = dec_bytes(x / 10);
        v.push(48 + (x % 10) as u8);
        proof {
            assert(v@ =~= dec_digits_of(x as nat));
        }
        v
    }
}

/// First position of a byte in a sequence, or -1.
pub open spec fn find_byte(s: Seq<u8>, b: u8) -> int
    decreases s.len(),
{
    if s.len() == 0 {
        -1
    } else if s[0] == b {
        0
    } else {
        let r = find_byte(s.skip(1), b);
        if r < 0 {
            -1
        } else {
            r + 1
        }
    }
}

pub proof fn lemma_find_byte_hit(s: Seq<u8>, b: u8, k: int)
    requires
        0 <= k < s.len(),
        s[k] == b,
        forall|j: int| 0 <= j < k ==> s[j] != b,
    ensures
        find_byte(s, b) == k,
    decreases s.len(),
{
    if s[0] != b {
        assert(forall|j: int| 0 <= j < k - 1 ==> s.skip(1)[j] == s[j + 1]);
        lemma_find_byte_hit(s.skip(1), b, k - 1);
    }
}

pub proof fn lemma_find_byte_miss(s: Seq<u8>, b: u8)
    requires
        forall|j: int| 0 <= j < s.len() ==> s[j] != b,
    ensures
        find_byte(s, b) == -1,
    decreases s.len(),
{
    if s.len() > 0 {
        assert(forall|j: int| 0 <= j < s.skip(1).len() ==> s.skip(1)[j] == s[j + 1]);
        lemma_find_byte_miss(s.skip(1), b);
    }
}

/// An ASCII decimal digit.
pub open spec fn is_dec_digit(b: u8) -> bool {
    48 <= b <= 57
}

/// Every byte an ASCII decimal digit.
pub open spec fn all_digits(s: Seq<u8>) -> bool {
    forall|i: int| 0 <= i < s.len() ==> is_dec_digit(#[trigger] s[i])
}

/// The number written by a string of ASCII decimal digits.
pub open spec fn dec_val_of(s: Seq<u8>) -> nat
    decreases s.len(),
{
    if s.len() == 0 {
        0
    } else {
        (dec_val_of(s.drop_last()) * 10 + (s.last() - 48)) as nat
    }
}

/// A digit string is worth at least any of its prefixes.
pub proof fn lemma_dec_val_prefix(s: Seq<u8>, i: int)
    requires
        0 <= i <= s.len(),
        all_digits(s),
    ensures
        dec_val_of(s.take(i)) <= dec_val_of(s),
    decreases s.len(),
{
    if i < s.len() {
        assert(all_digits(s.drop_last()));
        lemma_dec_val_prefix(s.drop_last(), i);
        assert(s.take(i) =~= s.drop_last().take(i));
    } else {
        assert(s.take(i) =~= s);
    }
}

/// Parse the decimal digits of `bytes[start..end]` into a number, failing
/// on an empty range, a non-digit, or a value above `cap`.
pub fn parse_dec_capped(bytes: &[u8], start: usize, end: usize, cap: u64) -> (r: Option<u64>)
    requires
        start <= end <= bytes@.len(),
        cap <= 0xFFFF_FFFF,
    ensures
        r is Some <==> (start < end && all_digits(bytes@.subrange(start as int, end as int))
            && dec_val_of(bytes@.subrange(start as int, end as int)) <= cap),
        r is Some ==> r.unwrap() == dec_val_of(bytes@.subrange(start as int, end as int)),
{
    if start >= end {
        return None;
    }
    let ghost seg = bytes@.subrange(start as int, end as int);
    let mut acc: u64 = 0;
    let mut k: usize = start;
    proof {
        assert(seg.take(0) =~= Seq::<u8>::empty());
    }
    while k < end
        invariant
            start <= k <= end <= bytes@.len(),
            cap <= 0xFFFF_FFFF,
            seg == bytes@.subrange(start as int, end as int),
            acc <= cap,
            acc == dec_val_of(seg.take(k - start)),
            all_digits(seg.take(k - start)),
        decreases end - k,
    {
        let b = bytes[k];
        proof {
            assert(seg[k - start] == bytes@[k as int]);
            assert(seg.take(k - start + 1).drop_last() =~= seg.take(k - start));
            assert(seg.take(k - start + 1).last() == seg[k - start]);
        }
        if b < 48 || b > 57 {
            return None;
        }
        let next: u64 = acc * 10 + ((b - 48) as u64);
        if next > cap {
            proof {
                assert(all_digits(seg.take(k - start + 1)));
                assert(dec_val_of(seg.take(k - start + 1)) == next);
                if all_digits(seg) {
                    lemma_dec_val_prefix(seg, k - start + 1);
                }
            }
            return None;
        }
        acc = next;
        k += 1;
    }
    proof {
        assert(seg.take(end - start) =~= seg);
    }
    Some(acc)
}

} // verus!
