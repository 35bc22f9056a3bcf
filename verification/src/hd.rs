//! BIP32-style non-hardened child-key derivation.
//!
//! A derivation path `m/i1/i2/...` with only non-hardened indices (below
//! `2^31`) is walked step by step: at each step the HMAC-SHA-512 of the
//! compressed parent key and the big-endian index, keyed by the chain code,
//! yields in its left half a tweak scalar and in its right half the next
//! chain code; the child key is `pk + tweak * B`.  The tweaks add up, so
//! the original secret plus the total tweak signs for the derived key.

use vstd::prelude::*;
use vstd::string::StringSliceAdditionalSpecFns;

use crate::addr::be_bytes_of_u32;
use crate::bytesutil::{all_digits, append_arr, dec_val_of, find_byte, lemma_find_byte_hit, lemma_find_byte_miss, parse_dec_capped};
use crate::errors::MpcError;
use crate::hash::{hmac_sha512, hmac_sha512_of, sha512, sha512_of};
use crate::point::{pt_add, pt_base, Pt};
use crate::scalar::{add_mod, group_order, le_val, Sc};

verus! {

/// The derivation steps written after the leading `m`: a possibly empty
/// run of `/<digits>` components, every value below `2^31`.
pub open spec fn parse_rest(s: Seq<u8>) -> Option<Seq<nat>>
    decreases s.len(),
{
    if s.len() == 0 {
        Some(Seq::<nat>::empty())
    } else if s[0] != 47 {
        None
    } else {
        let t = s.skip(1);
        let e = find_byte(t, 47);
        let seg = if e < 0 {
            t
        } else {
            t.take(e)
        };
        let rest = if e < 0 || e >= t.len() {
            Seq::<u8>::empty()
        } else {
            t.skip(e)
        };
        if seg.len() > 0 && all_digits(seg) && dec_val_of(seg) < 0x80000000 {
            match parse_rest(rest) {
                Some(steps) => Some(seq![dec_val_of(seg)] + steps),
                None => None,
            }
        } else {
            None
        }
    }
}

/// A valid non-hardened derivation path: `m`, then `/<digits>` components
/// with values below `2^31`.
pub open spec fn parse_path(s: Seq<u8>) -> Option<Seq<nat>> {
    if s.len() >= 1 && s[0] == 109 && (s.len() == 1 || s[1] == 47) {
        parse_rest(s.skip(1))
    } else {
        None
    }
}

/// Parse a derivation path.  Fails with `DerivationError` exactly when the
/// text is not `m` followed by `/<digits>` components, or some index is
/// hardened (at or above `2^31`).
pub fn parse_derivation_path(path: &str) -> (r: Result<Vec<u32>, MpcError>)
    ensures
        r is Ok <==> parse_path(path.spec_bytes()) is Some,
        r is Ok ==> r.unwrap()@.map_values(|x: u32| x as nat) == parse_path(
            path.spec_bytes(),
        ).unwrap(),
        r is Err ==> r == Err::<Vec<u32>, MpcError>(MpcError::DerivationError),
{
    let bytes = path.as_bytes();
    let ghost full = path.spec_bytes();
    let n = bytes.len();
    if n == 0 || bytes[0] != 109 {
        return Err(MpcError::DerivationError);
    }
    if n > 1 && bytes[1] != 47 {
        return Err(MpcError::DerivationError);
    }
    let mut out: Vec<u32> = Vec::new();
    let mut pos: usize = 1;
    proof {
        assert(out@.map_values(|x: u32| x as nat) =~= Seq::<nat>::empty());
        if parse_rest(full.skip(1)) is Some {
            assert(Seq::<nat>::empty() + parse_rest(full.skip(1)).unwrap() =~= parse_rest(
                full.skip(1),
            ).unwrap());
        }
    }
    while pos < n
        invariant
            1 <= pos <= n,
            n == full.len(),
            full == path.spec_bytes(),
            bytes@ == full,
            pos < n ==> full[pos as int] == 47,
            (match parse_rest(full.skip(pos as int)) {
                Some(st) => parse_path(full) == Some(
                    out@.map_values(|x: u32| x as nat) + st,
                ),
                None => parse_path(full) is None,
            }),
        decreases n - pos,
    {
        let ghost t_g = full.skip(pos as int).skip(1);
        // the component starts after the slash
        let seg_start = pos + 1;
        let mut seg_end = seg_start;
        while seg_end < n && bytes[seg_end] != 47
            invariant
                seg_start <= seg_end <= n,
                n == full.len(),
                bytes@ == full,
                forall|j: int| seg_start <= j < seg_end ==> full[j] != 47,
            decreases n - seg_end,
        {
            seg_end += 1;
        }
        proof {
            assert(t_g =~= full.subrange(seg_start as int, n as int));
            if seg_end < n {
                assert(forall|j: int|
                    0 <= j < seg_end - seg_start ==> t_g[j] == full[seg_start + j]);
                lemma_find_byte_hit(t_g, 47, seg_end - seg_start);
            } else {
                assert(forall|j: int|
                    0 <= j < t_g.len() ==> t_g[j] == full[seg_start + j]);
                lemma_find_byte_miss(t_g, 47);
            }
            assert(t_g.take(seg_end - seg_start) =~= full.subrange(
                seg_start as int,
                seg_end as int,
            ));
        }
        let v = match parse_dec_capped(bytes, seg_start, seg_end, 0x7FFFFFFF) {
            Some(v) => v,
            None => {
                proof {
                    assert(parse_rest(full.skip(pos as int)) is None);
                }
                return Err(MpcError::DerivationError);
            },
        };
        let ghost out_old = out@;
        out.push(v as u32);
        proof {
            let seg = full.subrange(seg_start as int, seg_end as int);
            if seg_end < n {
                assert(t_g.skip(seg_end - seg_start) =~= full.skip(seg_end as int));
            } else {
                assert(full.skip(seg_end as int) =~= Seq::<u8>::empty());
                assert(t_g.skip(seg_end - seg_start) =~= Seq::<u8>::empty());
            }
            assert(out@.map_values(|x: u32| x as nat) =~= out_old.map_values(
                |x: u32| x as nat,
            ).push(v as nat));
            if parse_rest(full.skip(seg_end as int)) is Some {
                let st_new = parse_rest(full.skip(seg_end as int)).unwrap();
                assert(parse_rest(full.skip(pos as int)) == Some(
                    seq![dec_val_of(seg)] + st_new,
                ));
                assert(out_old.map_values(|x: u32| x as nat).push(v as nat) + st_new
                    =~= out_old.map_values(|x: u32| x as nat) + (seq![dec_val_of(seg)]
                    + st_new));
            } else {
                assert(parse_rest(full.skip(pos as int)) is None);
            }
        }
        pos = seg_end;
    }
    proof {
        assert(full.skip(n as int) =~= Seq::<u8>::empty());
    }
    Ok(out)
}

/// The tweak of one derivation step: the left half of
/// `HMAC-SHA512(cc, pk || index)`, reduced modulo the group order.
pub open spec fn hd_step_tweak(pk: Seq<u8>, cc: Seq<u8>, idx: nat) -> nat {
    le_val(hmac_sha512_of(cc, pk + be_bytes_of_u32(idx as u32)).take(32)) % group_order()
}

/// The chain code after one derivation step: the right half of the HMAC.
pub open spec fn hd_step_cc(pk: Seq<u8>, cc: Seq<u8>, idx: nat) -> Seq<u8> {
    hmac_sha512_of(cc, pk + be_bytes_of_u32(idx as u32)).skip(32)
}

/// The public key after walking all steps.
pub open spec fn hd_pk(pk: Seq<u8>, cc: Seq<u8>, steps: Seq<nat>) -> Seq<u8>
    decreases steps.len(),
{
    if steps.len() == 0 {
        pk
    } else {
        hd_pk(
            pt_add(pk, pt_base(hd_step_tweak(pk, cc, steps[0]))),
            hd_step_cc(pk, cc, steps[0]),
            steps.skip(1),
        )
    }
}

/// The total tweak after walking all steps: the per-step tweaks summed
/// modulo the group order onto `acc`.
pub open spec fn hd_tweak(pk: Seq<u8>, cc: Seq<u8>, steps: Seq<nat>, acc: nat) -> nat
    decreases steps.len(),
{
    if steps.len() == 0 {
        acc
    } else {
        hd_tweak(
            pt_add(pk, pt_base(hd_step_tweak(pk, cc, steps[0]))),
            hd_step_cc(pk, cc, steps[0]),
            steps.skip(1),
            add_mod(acc, hd_step_tweak(pk, cc, steps[0])),
        )
    }
}

/// Walk a non-hardened derivation path from a parent public key and chain
/// code.  Returns the total tweak scalar and the derived child key; an
/// empty step list returns tweak zero and the parent key unchanged.
/// Fails with `DerivationError` exactly when the path does not parse.
pub fn non_hardened_derive(drv_path: &str, parent_pk: &Pt, chain_code: &Vec<u8>) -> (r: Result<
    (Sc, Pt),
    MpcError,
>)
    ensures
        r is Ok <==> parse_path(drv_path.spec_bytes()) is Some,
        r is Ok ==> r.unwrap().0.val() == hd_tweak(
            parent_pk@,
            chain_code@,
            parse_path(drv_path.spec_bytes()).unwrap(),
            0,
        ),
        r is Ok ==> r.unwrap().1@ == hd_pk(
            parent_pk@,
            chain_code@,
            parse_path(drv_path.spec_bytes()).unwrap(),
        ),
        r is Err ==> r == Err::<(Sc, Pt), MpcError>(MpcError::DerivationError),
{
    let steps = match parse_derivation_path(drv_path) {
        Ok(s) => s,
        Err(e) => {
            return Err(e);
        },
    };
    let ghost gsteps = parse_path(drv_path.spec_bytes()).unwrap();
    let mut pk = *parent_pk;
    let mut cc: Vec<u8> = clone_bytes(chain_code);
    let mut total = Sc::zero();
    let mut i: usize = 0;
    proof {
        assert(gsteps.skip(0) =~= gsteps);
    }
    while i < steps.len()
        invariant
            i <= steps@.len(),
            gsteps == steps@.map_values(|x: u32| x as nat),
            hd_pk(pk@, cc@, gsteps.skip(i as int)) == hd_pk(
                parent_pk@,
                chain_code@,
                gsteps,
            ),
            hd_tweak(pk@, cc@, gsteps.skip(i as int), total.val()) == hd_tweak(
                parent_pk@,
                chain_code@,
                gsteps,
                0,
            ),
        decreases steps@.len() - i,
    {
        let idx = steps[i];
        let mut data: Vec<u8> = Vec::new();
        let pkb = pk.to_bytes();
        append_arr(&mut data, &pkb);
        let ib = crate::addr::u32_be_bytes(idx);
        append_arr(&mut data, &ib);
        proof {
            assert(data@ =~= pk@ + be_bytes_of_u32(idx));
        }
        let h = hmac_sha512(&cc, &data);
        let left = take_bytes(&h, 32);
        let t = Sc::from_bytes_mod_order(&left);
        let ghost old_pk = pk@;
        let ghost old_cc = cc@;
        cc = skip_bytes(&h, 32);
        let tb = Pt::base_mul(&t);
        pk = Pt::pt_add_pt(&pk, &tb);
        total = Sc::sc_add(&total, &t);
        proof {
            assert(gsteps.skip(i as int)[0] == gsteps[i as int]);
            assert(gsteps.skip(i as int).skip(1) =~= gsteps.skip(i as int + 1));
            assert(t.val() == hd_step_tweak(old_pk, old_cc, gsteps[i as int]));
            assert(cc@ == hd_step_cc(old_pk, old_cc, gsteps[i as int]));
        }
        i += 1;
    }
    proof {
        assert(gsteps.skip(gsteps.len() as int) =~= Seq::<nat>::empty());
        assert(gsteps.skip(0) =~= gsteps);
    }
    Ok((total, pk))
}

/// Copy a byte vector.
pub fn clone_bytes(v: &Vec<u8>) -> (r: Vec<u8>)
    ensures
        r@ == v@,
{
    let mut out: Vec<u8> = Vec::new();
    crate::bytesutil::append_bytes(&mut out, v);
    proof {
        assert(Seq::<u8>::empty() + v@ =~= v@);
    }
    out
}

/// The first `n` bytes of a vector.
pub fn take_bytes(v: &Vec<u8>, n: usize) -> (r: Vec<u8>)
    requires
        n <= v@.len(),
    ensures
        r@ == v@.take(n as int),
{
    let mut out: Vec<u8> = Vec::new();
    let mut i: usize = 0;
    while i < n
        invariant
            i <= n <= v@.len(),
            out@ == v@.take(i as int),
        decreases n - i,
    {
        out.push(v[i]);
        proof {
            assert(v@.take(i as int).push(v@[i as int]) =~= v@.take(i + 1));
        }
        i += 1;
    }
    out
}

/// The bytes of a vector from position `n` on.
pub fn skip_bytes(v: &Vec<u8>, n: usize) -> (r: Vec<u8>)
    requires
        n <= v@.len(),
    ensures
        r@ == v@.skip(n as int),
{
    let mut out: Vec<u8> = Vec::new();
    let mut i: usize = n;
    proof {
        assert(v@.subrange(n as int, n as int) =~= Seq::<u8>::empty());
    }
    while i < v.len()
        invariant
            n <= i <= v@.len(),
            out@ == v@.subrange(n as int, i as int),
        decreases v@.len() - i,
    {
        out.push(v[i]);
        proof {
            assert(v@.subrange(n as int, i as int).push(v@[i as int]) =~= v@.subrange(
                n as int,
                i + 1,
            ));
        }
        i += 1;
    }
    proof {
        assert(v@.subrange(n as int, v@.len() as int) =~= v@.skip(n as int));
    }
    out
}

/// The chain code of a public key: the first half of its SHA-512 digest.
pub fn eval_chain_code(pk: &Pt) -> (r: Vec<u8>)
    ensures
        r@ == sha512_of(pk@).take(32),
        r@.len() == 32,
{
    let pkb = pk.to_bytes();
    let mut data: Vec<u8> = Vec::new();
    append_arr(&mut data, &pkb);
    proof {
        assert(data@ =~= pk@);
    }
    let h = sha512(&data);
    take_bytes(&h, 32)
}

} // verus!
