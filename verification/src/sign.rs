//! FROST signing primitives: nonce pairs, binding values, Lagrange
//! coefficients, responses and Schnorr verification.

use vstd::prelude::*;

use crate::addr::{be_bytes_of_u32, MpcAddr};
use crate::bytesutil::{append_arr, append_bytes};
use crate::errors::MpcError;
use crate::hash::{sha256, sha256_of, sha512, sha512_of};
use crate::point::{pt_add, pt_base, pt_mul, pt_sub, Pt};
use crate::scalar::{add_mod, group_order, le_val, mul_mod, Sc};

verus! {

/// The published commitments `(D, E) = (d * B, e * B)` of one signer.
pub struct SigningCommitmentPair {
    pub g_d: Pt,
    pub g_e: Pt,
}

/// One ephemeral secret with its public commitment.
pub struct Nonce {
    pub secret: Sc,
    pub public: Pt,
}

/// The two ephemeral nonces of one signer for one signature.
pub struct SigningNoncePair {
    pub d: Nonce,
    pub e: Nonce,
}

/// A threshold Schnorr signature over the message hash it signs.
#[derive(Debug, PartialEq, Eq)]
pub struct Signature {
    pub r: Pt,
    pub s: Sc,
    pub hash: Vec<u8>,
}

impl SigningCommitmentPair {
    /// Accept a commitment pair; rejects the identity in either slot.
    pub fn new(g_d: Pt, g_e: Pt) -> (r: Result<SigningCommitmentPair, MpcError>)
        ensures
            r is Ok <==> (g_d@ != pt_base(0) && g_e@ != pt_base(0)),
            r is Ok ==> (r.unwrap().g_d == g_d && r.unwrap().g_e == g_e),
            r is Err ==> r == Err::<SigningCommitmentPair, MpcError>(MpcError::ConfigError),
    {
        let id_pt = Pt::identity();
        if g_d.pt_eq(&id_pt) || g_e.pt_eq(&id_pt) {
            Err(MpcError::ConfigError)
        } else {
            Ok(SigningCommitmentPair { g_d, g_e })
        }
    }
}

impl SigningNoncePair {
    /// Sample a fresh nonce pair; rejects the (cryptographically
    /// negligible) draws whose commitment is the identity.
    pub fn new() -> (r: Result<SigningNoncePair, MpcError>)
        ensures
            r is Ok ==> ({
                let p = r.unwrap();
                &&& p.d.public@ == pt_base(p.d.secret.val())
                &&& p.e.public@ == pt_base(p.e.secret.val())
                &&& p.d.public@ != pt_base(0)
                &&& p.e.public@ != pt_base(0)
            }),
            r is Err ==> r == Err::<SigningNoncePair, MpcError>(MpcError::ConfigError),
    {
        let d = Sc::random();
        let e = Sc::random();
        let d_pub = Pt::base_mul(&d);
        let e_pub = Pt::base_mul(&e);
        let id_pt = Pt::identity();
        if d_pub.pt_eq(&id_pt) || e_pub.pt_eq(&id_pt) {
            return Err(MpcError::ConfigError);
        }
        Ok(SigningNoncePair { d: Nonce { secret: d, public: d_pub }, e: Nonce { secret: e, public: e_pub } })
    }

    /// Overwrite both secrets with zeros.
    pub fn zeroize(&mut self)
        ensures
            final(self).d.secret.val() == 0,
            final(self).e.secret.val() == 0,
    {
        self.d.secret.zeroize();
        self.e.secret.zeroize();
    }
}

/// Sample the nonce pair and its commitment pair for one signing run.
pub fn sign_preprocess() -> (r: Result<(SigningCommitmentPair, SigningNoncePair), MpcError>)
    ensures
        r is Ok ==> ({
            let (com, nonce) = r.unwrap();
            &&& com.g_d == nonce.d.public
            &&& com.g_e == nonce.e.public
            &&& nonce.d.public@ == pt_base(nonce.d.secret.val())
            &&& nonce.e.public@ == pt_base(nonce.e.secret.val())
            &&& com.g_d@ != pt_base(0)
            &&& com.g_e@ != pt_base(0)
        }),
        r is Err ==> r == Err::<(SigningCommitmentPair, SigningNoncePair), MpcError>(
            MpcError::ConfigError,
        ),
{
    let nonce = match SigningNoncePair::new() {
        Ok(n) => n,
        Err(e) => {
            return Err(e);
        },
    };
    let com = match SigningCommitmentPair::new(nonce.d.public, nonce.e.public) {
        Ok(c) => c,
        Err(e) => {
            return Err(e);
        },
    };
    Ok((com, nonce))
}

/// Numerator of the Lagrange coefficient at zero: the product of all other
/// signers' member ids, modulo the group order.  Only the signer's own
/// address is skipped.
pub open spec fn lag_num(signers: Seq<MpcAddr>, x: MpcAddr) -> nat
    decreases signers.len(),
{
    if signers.len() == 0 {
        1
    } else {
        if signers.last() == x {
            lag_num(signers.drop_last(), x)
        } else {
            mul_mod(lag_num(signers.drop_last(), x), signers.last().spec_member_id() as nat)
        }
    }
}

/// Denominator of the Lagrange coefficient: the product of the differences
/// to all other signers' member ids, modulo the group order.  A different
/// address carrying the signer's own member id makes it vanish.
pub open spec fn lag_den(signers: Seq<MpcAddr>, x: MpcAddr) -> nat
    decreases signers.len(),
{
    if signers.len() == 0 {
        1
    } else {
        if signers.last() == x {
            lag_den(signers.drop_last(), x)
        } else {
            mul_mod(
                lag_den(signers.drop_last(), x),
                crate::scalar::sub_mod(
                    signers.last().spec_member_id() as nat,
                    x.spec_member_id() as nat,
                ),
            )
        }
    }
}

/// The Lagrange coefficient of signer `id` within `signers`, evaluated at
/// zero: `lambda = num / den` with `num` and `den` as above.  Fails exactly
/// when the denominator vanishes, that is when another signer carries the
/// same member id.
pub fn lagrange_lambda(id: MpcAddr, signers: &Vec<MpcAddr>) -> (r: Result<Sc, MpcError>)
    ensures
        r is Ok <==> lag_den(signers@, id) != 0,
        r is Ok ==> mul_mod(r.unwrap().val(), lag_den(signers@, id)) == lag_num(signers@, id)
            % group_order(),
        r is Err ==> r == Err::<Sc, MpcError>(MpcError::DuplicateSigner(id.spec_raw())),
{
    let mut num = Sc::one();
    let mut den = Sc::one();
    let mut i: usize = 0;
    proof {
        assert(signers@.take(0) =~= Seq::<MpcAddr>::empty());
    }
    while i < signers.len()
        invariant
            i <= signers@.len(),
            num.val() == lag_num(signers@.take(i as int), id),
            den.val() == lag_den(signers@.take(i as int), id),
        decreases signers@.len() - i,
    {
        let j = signers[i];
        let ghost pre = signers@.take(i as int);
        proof {
            assert(signers@.take(i + 1).drop_last() =~= pre);
            assert(signers@.take(i + 1).last() == signers@[i as int]);
        }
        if j.raw != id.raw {
            proof {
                assert(signers@[i as int] != id);
            }
            let jm = Sc::from_u64(j.member_id() as u64);
            let xm = Sc::from_u64(id.member_id() as u64);
            let diff = Sc::sc_sub(&jm, &xm);
            num = Sc::sc_mul(&num, &jm);
            den = Sc::sc_mul(&den, &diff);
        } else {
            proof {
                assert(signers@[i as int] == id);
            }
        }
        i += 1;
    }
    proof {
        assert(signers@.take(signers@.len() as int) =~= signers@);
        lemma_lag_bounds(signers@, id);
    }
    if den.is_zero() {
        return Err(MpcError::DuplicateSigner(id.as_primitive()));
    }
    let inv = Sc::sc_invert(&den);
    let lambda = Sc::sc_mul(&num, &inv);
    proof {
        lemma_mul_inverse_cancel(num.val(), den.val(), inv.val());
        vstd::arithmetic::div_mod::lemma_small_mod(lag_num(signers@, id), group_order());
    }
    Ok(lambda)
}

/// A sole signer's Lagrange coefficient is one: both products are empty,
/// so the run reduces to single-signer Schnorr.  Together with the
/// coefficient's contract this pins the computed coefficient to one.
pub proof fn lemma_lagrange_single(signers: Seq<MpcAddr>, x: MpcAddr)
    requires
        signers.len() == 1,
        signers[0] == x,
    ensures
        lag_num(signers, x) == 1,
        lag_den(signers, x) == 1,
{
    assert(signers.last() == x);
    assert(signers.drop_last() =~= Seq::<MpcAddr>::empty());
    assert(lag_num(signers.drop_last(), x) == 1);
    assert(lag_den(signers.drop_last(), x) == 1);
}

/// Both Lagrange products stay below the group order.
proof fn lemma_lag_bounds(signers: Seq<MpcAddr>, x: MpcAddr)
    ensures
        lag_num(signers, x) < group_order(),
        lag_den(signers, x) < group_order(),
    decreases signers.len(),
{
    if signers.len() == 0 {
    } else {
        lemma_lag_bounds(signers.drop_last(), x);
        if signers.last() != x {
            vstd::arithmetic::div_mod::lemma_mod_bound(
                (lag_num(signers.drop_last(), x) * (signers.last().spec_member_id() as nat))
                    as int,
                group_order() as int,
            );
            vstd::arithmetic::div_mod::lemma_mod_bound(
                (lag_den(signers.drop_last(), x) * crate::scalar::sub_mod(
                    signers.last().spec_member_id() as nat,
                    x.spec_member_id() as nat,
                )) as int,
                group_order() as int,
            );
        }
    }
}

/// Multiplying by a value and then by its inverse modulo the group order
/// restores the value: `(n * i) * d == n (mod q)` when `i * d == 1 (mod q)`.
proof fn lemma_mul_inverse_cancel(n: nat, d: nat, i: nat)
    requires
        mul_mod(i, d) == 1,
        n < group_order(),
    ensures
        mul_mod(mul_mod(n, i), d) == n,
{
    let l = group_order() as int;
    let ni = n as int;
    let ii = i as int;
    let di = d as int;
    vstd::arithmetic::div_mod::lemma_mul_mod_noop_left(ni * ii, di, l);
    assert((ni * ii) * di == ni * (ii * di)) by (nonlinear_arith);
    vstd::arithmetic::div_mod::lemma_mul_mod_noop_right(ni, ii * di, l);
    vstd::arithmetic::div_mod::lemma_small_mod(n, group_order());
    assert((ni * 1) % l == ni % l);
}

/// The byte string of the sorted commitment list hashed into a binding
/// value: for each signer in ascending address order, its big-endian
/// address then both compressed commitments.
pub open spec fn rho_commit_bytes(
    signers: Seq<MpcAddr>,
    coms: Seq<SigningCommitmentPair>,
    n: int,
) -> Seq<u8>
    decreases n,
{
    if n <= 0 {
        Seq::<u8>::empty()
    } else {
        rho_commit_bytes(signers, coms, n - 1) + be_bytes_of_u32(signers[n - 1].spec_raw())
            + coms[n - 1].g_d@ + coms[n - 1].g_e@
    }
}

/// The binding value of signer `i`: `SHA256("I" || addr || msg || list)`
/// reduced modulo the group order, over the full ascending commitment list.
pub open spec fn rho_of(
    i: MpcAddr,
    msg: Seq<u8>,
    signers: Seq<MpcAddr>,
    coms: Seq<SigningCommitmentPair>,
) -> nat {
    le_val(
        sha256_of(
            seq![73u8] + be_bytes_of_u32(i.spec_raw()) + msg + rho_commit_bytes(
                signers,
                coms,
                signers.len() as int,
            ),
        ),
    ) % group_order()
}

/// Compute the binding value of signer `i` over the commitment list, which
/// must be aligned with the ascending signer list.
pub fn gen_rho_i(
    i: MpcAddr,
    msg: &Vec<u8>,
    signers: &Vec<MpcAddr>,
    coms: &Vec<SigningCommitmentPair>,
) -> (r: Sc)
    requires
        signers@.len() == coms@.len(),
    ensures
        r.val() == rho_of(i, msg@, signers@, coms@),
{
    let mut data: Vec<u8> = Vec::new();
    data.push(73u8);
    let ib = i.to_be_bytes();
    append_arr(&mut data, &ib);
    append_bytes(&mut data, msg);
    proof {
        assert(data@ =~= seq![73u8] + be_bytes_of_u32(i.spec_raw()) + msg@ + rho_commit_bytes(
            signers@,
            coms@,
            0,
        ));
    }
    let mut k: usize = 0;
    while k < signers.len()
        invariant
            k <= signers@.len(),
            signers@.len() == coms@.len(),
            data@ == seq![73u8] + be_bytes_of_u32(i.spec_raw()) + msg@ + rho_commit_bytes(
                signers@,
                coms@,
                k as int,
            ),
        decreases signers@.len() - k,
    {
        let jb = signers[k].to_be_bytes();
        append_arr(&mut data, &jb);
        let db = coms[k].g_d.to_bytes();
        append_arr(&mut data, &db);
        let eb = coms[k].g_e.to_bytes();
        append_arr(&mut data, &eb);
        proof {
            assert(data@ =~= seq![73u8] + be_bytes_of_u32(i.spec_raw()) + msg@
                + rho_commit_bytes(signers@, coms@, k + 1));
        }
        k += 1;
    }
    let h = sha256(&data);
    Sc::from_bytes_mod_order(&h)
}

/// The aggregate nonce commitment `R = sum(D_j + rho_j * E_j)` over
/// compressed encodings, left to right.
pub open spec fn nonce_agg(coms: Seq<SigningCommitmentPair>, rhos: Seq<nat>, n: int) -> Seq<u8>
    decreases n,
{
    if n <= 0 {
        pt_base(0)
    } else {
        pt_add(
            nonce_agg(coms, rhos, n - 1),
            pt_add(coms[n - 1].g_d@, pt_mul(rhos[n - 1], coms[n - 1].g_e@)),
        )
    }
}

/// The values of a sequence of scalars.
pub open spec fn rho_vals(rhos: Seq<Sc>) -> Seq<nat> {
    rhos.map_values(|c: Sc| c.val())
}

/// A commitment list is the basepoint image of nonce pairs `(d_j, e_j)`.
pub open spec fn coms_open(coms: Seq<SigningCommitmentPair>, ds: Seq<nat>, es: Seq<nat>) -> bool {
    &&& coms.len() == ds.len()
    &&& coms.len() == es.len()
    &&& forall|j: int|
        0 <= j < coms.len() ==> ds[j] < group_order() && es[j] < group_order() && (
        #[trigger] coms[j]).g_d@ == pt_base(ds[j]) && coms[j].g_e@ == pt_base(es[j])
}

/// The discrete logarithm of the honest aggregate nonce:
/// `sum(d_j + rho_j * e_j)` modulo the group order.
pub open spec fn nonce_agg_val(ds: Seq<nat>, es: Seq<nat>, rhos: Seq<nat>, n: int) -> nat
    decreases n,
{
    if n <= 0 {
        0
    } else {
        add_mod(
            nonce_agg_val(ds, es, rhos, n - 1),
            add_mod(ds[n - 1], mul_mod(rhos[n - 1], es[n - 1])),
        )
    }
}

/// Aggregate the nonce commitments with their binding values:
/// `R = sum(D_j + rho_j * E_j)`.  On basepoint images the result is the
/// basepoint image of `sum(d_j + rho_j * e_j)`.
pub fn agg_nonce_com(coms: &Vec<SigningCommitmentPair>, rhos: &Vec<Sc>) -> (r: Pt)
    requires
        coms@.len() == rhos@.len(),
    ensures
        r@ == nonce_agg(coms@, rho_vals(rhos@), coms@.len() as int),
        forall|ds: Seq<nat>, es: Seq<nat>|
            #![trigger coms_open(coms@, ds, es)]
            coms_open(coms@, ds, es) ==> r@ == pt_base(
                nonce_agg_val(ds, es, rho_vals(rhos@), coms@.len() as int),
            ),
{
    let mut acc = Pt::identity();
    let mut k: usize = 0;
    while k < coms.len()
        invariant
            k <= coms@.len(),
            coms@.len() == rhos@.len(),
            acc@ == nonce_agg(coms@, rho_vals(rhos@), k as int),
            forall|ds: Seq<nat>, es: Seq<nat>|
                #![trigger coms_open(coms@, ds, es)]
                coms_open(coms@, ds, es) ==> acc@ == pt_base(
                    nonce_agg_val(ds, es, rho_vals(rhos@), k as int),
                ),
        decreases coms@.len() - k,
    {
        let rho = rhos[k];
        proof {
            use_type_invariant(&rho);
            Sc::lemma_inv(rho);
        }
        let ghost acc_old = acc;
        let t = Pt::pt_mul_sc(&rho, &coms[k].g_e);
        let u = Pt::pt_add_pt(&coms[k].g_d, &t);
        acc = Pt::pt_add_pt(&acc, &u);
        proof {
            let l = group_order() as int;
            assert forall|ds: Seq<nat>, es: Seq<nat>| #[trigger]
                coms_open(coms@, ds, es) implies acc@ == pt_base(
                nonce_agg_val(ds, es, rho_vals(rhos@), k + 1),
            ) by {
                let prev = nonce_agg_val(ds, es, rho_vals(rhos@), k as int);
                lemma_nonce_agg_val_bound(ds, es, rho_vals(rhos@), k as int);
                assert(acc_old@ == pt_base(prev));
                assert(coms@[k as int].g_e@ == pt_base(es[k as int]));
                vstd::arithmetic::div_mod::lemma_mod_bound(
                    (rho.val() * es[k as int]) as int,
                    l,
                );
                assert(t@ == pt_base(mul_mod(rho.val(), es[k as int])));
                assert(coms@[k as int].g_d@ == pt_base(ds[k as int]));
                vstd::arithmetic::div_mod::lemma_mod_bound(
                    (ds[k as int] + mul_mod(rho.val(), es[k as int])) as int,
                    l,
                );
                assert(u@ == pt_base(add_mod(ds[k as int], mul_mod(rho.val(), es[k as int]))));
                assert(rho_vals(rhos@)[k as int] == rho.val());
            }
        }
        k += 1;
    }
    acc
}

/// Partial honest aggregates stay below the group order.
proof fn lemma_nonce_agg_val_bound(ds: Seq<nat>, es: Seq<nat>, rhos: Seq<nat>, n: int)
    ensures
        nonce_agg_val(ds, es, rhos, n) < group_order(),
{
    if n <= 0 {
    } else {
        vstd::arithmetic::div_mod::lemma_mod_bound(
            (nonce_agg_val(ds, es, rhos, n - 1) + add_mod(
                ds[n - 1],
                mul_mod(rhos[n - 1], es[n - 1]),
            )) as int,
            group_order() as int,
        );
    }
}

/// The signing challenge `c = SHA512(R || PK || msg)` reduced modulo the
/// group order, a full 64-byte reduction.
pub open spec fn challenge_of(r: Seq<u8>, pk: Seq<u8>, msg: Seq<u8>) -> nat {
    le_val(sha512_of(r + pk + msg)) % group_order()
}

/// Compute the signing challenge from the aggregate nonce commitment, the
/// (possibly derived) public key and the message hash.
pub fn generate_challenge(msg: &Vec<u8>, com: &Pt, pk: &Pt) -> (r: Sc)
    ensures
        r.val() == challenge_of(com@, pk@, msg@),
{
    let mut data: Vec<u8> = Vec::new();
    let cb = com.to_bytes();
    append_arr(&mut data, &cb);
    let pb = pk.to_bytes();
    append_arr(&mut data, &pb);
    append_bytes(&mut data, msg);
    proof {
        assert(data@ =~= com@ + pk@ + msg@);
    }
    let h = sha512(&data);
    Sc::from_bytes_mod_order_wide(&h)
}

/// One signer's response: `z = d + e * rho + lambda * x * c`.
pub open spec fn response_of(d: nat, e: nat, rho: nat, lam: nat, x: nat, c: nat) -> nat {
    add_mod(d, add_mod(mul_mod(e, rho), mul_mod(mul_mod(lam, x), c)))
}

/// Compute this signer's response `z = d + e * rho + lambda * x * c` with
/// the signer's Lagrange coefficient within its own group.  Fails exactly
/// when the Lagrange denominator vanishes (a duplicated signer).
pub fn sign_and_respond(
    my_id: MpcAddr,
    x_i: &Sc,
    my_rho: &Sc,
    sig_r: &Pt,
    nonce: &SigningNoncePair,
    signers: &Vec<MpcAddr>,
    main_pk: &Pt,
    msg: &Vec<u8>,
) -> (r: Result<Sc, MpcError>)
    ensures
        r is Ok <==> lag_den(signers@, my_id) != 0,
        r is Err ==> r == Err::<Sc, MpcError>(MpcError::DuplicateSigner(my_id.spec_raw())),
        r is Ok ==> ({
            let c = challenge_of(sig_r@, main_pk@, msg@);
            exists|lam: nat|
                #![trigger mul_mod(lam, lag_den(signers@, my_id))]
                mul_mod(lam, lag_den(signers@, my_id)) == lag_num(signers@, my_id)
                    % group_order() && r.unwrap().val() == response_of(
                    nonce.d.secret.val(),
                    nonce.e.secret.val(),
                    my_rho.val(),
                    lam,
                    x_i.val(),
                    c,
                )
        }),
{
    let lambda_i = match lagrange_lambda(my_id, signers) {
        Ok(l) => l,
        Err(e) => {
            return Err(e);
        },
    };
    let c = generate_challenge(msg, sig_r, main_pk);
    let t1 = Sc::sc_mul(&nonce.e.secret, my_rho);
    let t2 = Sc::sc_mul(&lambda_i, x_i);
    let t3 = Sc::sc_mul(&t2, &c);
    let t4 = Sc::sc_add(&t1, &t3);
    let z = Sc::sc_add(&nonce.d.secret, &t4);
    Ok(z)
}

/// The response equation of one signer, over compressed encodings:
/// `z * B == (D + rho * E) + (c * lambda) * (x * B)`.
pub open spec fn response_valid(
    resp: nat,
    xig: Seq<u8>,
    lam: nat,
    commitment: Seq<u8>,
    challenge: nat,
) -> bool {
    pt_base(resp) == pt_add(commitment, pt_mul(mul_mod(challenge, lam), xig))
}

/// Check one signer's response against its commitment, Lagrange
/// coefficient and public key share.  A response honestly built as
/// `z = w + (c * lambda) * y` over the discrete logarithms of the
/// commitment and the key share always passes.
pub fn is_valid_response(resp: &Sc, xig: &Pt, lam: &Sc, commitment: &Pt, challenge: &Sc) -> (r:
    bool)
    ensures
        r == response_valid(resp.val(), xig@, lam.val(), commitment@, challenge.val()),
        forall|w: nat, y: nat|
            #![trigger pt_base(w), pt_base(y)]
            w < group_order() && y < group_order() && commitment@ == pt_base(w) && xig@
                == pt_base(y) && resp.val() == add_mod(
                w,
                mul_mod(mul_mod(challenge.val(), lam.val()), y),
            ) ==> r,
{
    let lhs = Pt::base_mul(resp);
    let cl = Sc::sc_mul(challenge, lam);
    let t = Pt::pt_mul_sc(&cl, xig);
    let rhs = Pt::pt_add_pt(commitment, &t);
    let ok = lhs.pt_eq(&rhs);
    proof {
        assert forall|w: nat, y: nat|
            #![trigger pt_base(w), pt_base(y)]
            w < group_order() && y < group_order() && commitment@ == pt_base(w) && xig@
                == pt_base(y) && resp.val() == add_mod(
                w,
                mul_mod(mul_mod(challenge.val(), lam.val()), y),
            ) implies lhs@ == rhs@ by {
            vstd::arithmetic::div_mod::lemma_mod_bound(
                (cl.val() * y) as int,
                group_order() as int,
            );
            assert(t@ == pt_base(mul_mod(cl.val(), y)));
            assert(rhs@ == pt_base(add_mod(w, mul_mod(cl.val(), y))));
        }
    }
    ok
}

/// The final Schnorr equation: `s * B - c * PK == R` for the challenge
/// derived from `R`, `PK` and the signed hash.
pub open spec fn signature_valid(r: Seq<u8>, s: nat, hash: Seq<u8>, pk: Seq<u8>) -> bool {
    pt_sub(pt_base(s), pt_mul(challenge_of(r, pk, hash), pk)) == r
}

/// Verify an aggregated signature as a single-party Schnorr verifier would.
pub fn verify_signature(sig: &Signature, pubkey: &Pt) -> (r: Result<(), MpcError>)
    ensures
        r is Ok <==> signature_valid(sig.r@, sig.s.val(), sig.hash@, pubkey@),
        r is Err ==> r == Err::<(), MpcError>(MpcError::InvalidSignature),
{
    let challenge = generate_challenge(&sig.hash, &sig.r, pubkey);
    let sb = Pt::base_mul(&sig.s);
    let cp = Pt::pt_mul_sc(&challenge, pubkey);
    let lhs = Pt::pt_sub_pt(&sb, &cp);
    if lhs.pt_eq(&sig.r) {
        Ok(())
    } else {
        Err(MpcError::InvalidSignature)
    }
}

/// What `ed25519_dalek`'s strict verification makes of a 32-byte public
/// key, a message and a 64-byte signature: a pure function of the bytes.
pub uninterp spec fn ed25519_strict_ok(pk: Seq<u8>, msg: Seq<u8>, sig: Seq<u8>) -> bool;

/// Relies on `ed25519_dalek::VerifyingKey::from_bytes` and
/// `verify_strict`: parses the key and the 64-byte signature and runs the
/// strict Ed25519 verification; an unparsable key verifies nothing.
#[verifier::external_body]
fn ed25519_verify_strict(pk: &Vec<u8>, msg: &Vec<u8>, sig: &Vec<u8>) -> (r: bool)
    requires
        pk@.len() == 32,
        sig@.len() == 64,
    ensures
        r == ed25519_strict_ok(pk@, msg@, sig@),
{
    let pk_arr: [u8; 32] = pk.as_slice().try_into().unwrap();
    let vk = match ed25519_dalek::VerifyingKey::from_bytes(&pk_arr) {
        Ok(k) => k,
        Err(_) => {
            return false;
        },
    };
    let sig_arr: [u8; 64] = sig.as_slice().try_into().unwrap();
    let s = ed25519_dalek::Signature::from_bytes(&sig_arr);
    vk.verify_strict(msg.as_slice(), &s).is_ok()
}

impl Signature {
    /// The standard 64-byte Ed25519 encoding `compress(R) || s`.
    pub fn to_bytes64(&self) -> (r: Vec<u8>)
        ensures
            r@ == self.r@ + self.s@,
            r@.len() == 64,
    {
        proof {
            use_type_invariant(&self.s);
            Sc::lemma_inv(self.s);
        }
        let mut out: Vec<u8> = Vec::new();
        let rb = self.r.to_bytes();
        append_arr(&mut out, &rb);
        let sb = self.s.to_bytes();
        append_arr(&mut out, &sb);
        proof {
            assert(out@ =~= self.r@ + self.s@);
        }
        out
    }
}

/// Re-verify an aggregated signature with an independent Ed25519 verifier
/// over the standard 64-byte encoding, to catch encoding mismatches.
pub fn verify_solana(sig: &Signature, pk: &Pt) -> (r: Result<(), MpcError>)
    ensures
        r is Ok <==> ed25519_strict_ok(pk@, sig.hash@, sig.r@ + sig.s@),
        r is Err ==> r == Err::<(), MpcError>(MpcError::InvalidSignature),
{
    let pkb = pk.to_bytes();
    let mut pkv: Vec<u8> = Vec::new();
    append_arr(&mut pkv, &pkb);
    let sig64 = sig.to_bytes64();
    proof {
        assert(pkv@ =~= pk@);
    }
    if ed25519_verify_strict(&pkv, &sig.hash, &sig64) {
        Ok(())
    } else {
        Err(MpcError::InvalidSignature)
    }
}

} // verus!
