//! Distributed key generation: party keys, the proof of knowledge of the
//! secret, and peer validation.
//!
//! Each party commits to its secret `u_i` with `U_i = u_i * B` and proves
//! knowledge of `u_i` by publishing `K_i = k_i * B` and `sigma = k_i + u_i * e`
//! for the challenge `e = SHA256(K_i || U_i || "g.m" || context) mod q`.
//! The proof is checked by `K_i == sigma * B - e * U_i`.

use vstd::prelude::*;
use vstd::string::StringSliceAdditionalSpecFns;

use crate::addr::MpcAddr;
use crate::bytesutil::{append_arr, append_slice, dec_bytes, dec_digits_of};
use crate::errors::MpcError;
use crate::hash::{sha256, sha256_of};
use crate::point::{pt_base, pt_mul, pt_sub, Pt};
use crate::scalar::{add_mod, group_order, le_val, lemma_add_sub_cancel, mul_mod, Sc};

verus! {

/// A party's long-term secret contribution and the nonce of its proof of
/// knowledge.
pub struct PartyKey {
    pub u_i: Sc,
    pub k_i: Sc,
}

impl PartyKey {
    /// Sample a fresh party key from the operating system's randomness.
    pub fn new() -> (r: PartyKey)
    {
        PartyKey { u_i: Sc::random(), k_i: Sc::random() }
    }

    /// Adopt an existing secret, sampling only the proof nonce.
    pub fn import(u_i: Sc) -> (r: PartyKey)
        ensures
            r.u_i == u_i,
    {
        PartyKey { u_i, k_i: Sc::random() }
    }

    /// The public key of the secret contribution, `u_i * B`.
    pub fn g_u_i(&self) -> (r: Pt)
        ensures
            r@ == pt_base(self.u_i.val()),
    {
        Pt::base_mul(&self.u_i)
    }

    /// The commitment of the proof nonce, `k_i * B`.
    pub fn g_k_i(&self) -> (r: Pt)
        ensures
            r@ == pt_base(self.k_i.val()),
    {
        Pt::base_mul(&self.k_i)
    }

    /// Overwrite both secrets with zeros.
    pub fn zeroize(&mut self)
        ensures
            final(self).u_i.val() == 0,
            final(self).k_i.val() == 0,
    {
        self.u_i.zeroize();
        self.k_i.zeroize();
    }
}

/// The proof of knowledge published with a commitment vector.
pub struct KeyGenZKP {
    pub g_k_i: Pt,
    pub sigma: Sc,
}

impl KeyGenZKP {
    /// Overwrite the response with zeros; together with a leaked nonce it
    /// would reveal the secret.
    pub fn zeroize(&mut self)
        ensures
            final(self).sigma.val() == 0,
    {
        self.sigma.zeroize();
    }
}

/// A commitment vector with its proof of knowledge, as proposed by a peer
/// during the first keygen round.
pub struct KeyGenDKGProposedCommitment {
    pub shares_commitment: Vec<Pt>,
    pub zkp: KeyGenZKP,
}

/// The text form of an address, `"<group_id>.<member_id>"` in ASCII.
pub open spec fn addr_text_of(id: MpcAddr) -> Seq<u8> {
    dec_digits_of(id.spec_group_id() as nat) + seq![46u8] + dec_digits_of(
        id.spec_member_id() as nat,
    )
}

/// The DKG challenge: `SHA256(K || U || "g.m" || context)` reduced modulo
/// the group order.  The byte order of the hash input is part of the wire
/// contract.
pub open spec fn dkg_challenge_of(
    commitment: Seq<u8>,
    public: Seq<u8>,
    id: MpcAddr,
    ctx: Seq<u8>,
) -> nat {
    le_val(sha256_of(commitment + public + addr_text_of(id) + ctx)) % group_order()
}

/// Compute the DKG challenge for one party.
pub fn generate_dkg_challenge(index: MpcAddr, context: &str, public: &Pt, commitment: &Pt) -> (r:
    Sc)
    ensures
        r.val() == dkg_challenge_of(commitment@, public@, index, context.spec_bytes()),
{
    let mut data: Vec<u8> = Vec::new();
    let cb = commitment.to_bytes();
    append_arr(&mut data, &cb);
    let pb = public.to_bytes();
    append_arr(&mut data, &pb);
    let gt = dec_bytes(index.group_id());
    crate::bytesutil::append_bytes(&mut data, &gt);
    data.push(46u8);
    let mt = dec_bytes(index.member_id());
    crate::bytesutil::append_bytes(&mut data, &mt);
    append_slice(&mut data, context.as_bytes());
    proof {
        assert(data@ =~= commitment@ + public@ + addr_text_of(index) + context.spec_bytes());
    }
    let h = sha256(&data);
    Sc::from_bytes_mod_order(&h)
}

/// The proof-of-knowledge equation over compressed encodings:
/// `K == sigma * B - e * C0`.
pub open spec fn zkp_holds(g_k: Seq<u8>, sigma: nat, c0: Seq<u8>, e: nat) -> bool {
    g_k == pt_sub(pt_base(sigma), pt_mul(e, c0))
}

impl KeyGenDKGProposedCommitment {
    /// The commitment to the secret: the constant term of the vector.
    pub fn get_commitment_to_secret(&self) -> (r: &Pt)
        requires
            self.shares_commitment@.len() >= 1,
        ensures
            r == self.shares_commitment@[0],
    {
        &self.shares_commitment[0]
    }

    /// Check the proof of knowledge against a challenge: holds iff
    /// `K == sigma * B - e * C0`.  A proof honestly built as
    /// `sigma = k + u * e` from the committed secret always passes.
    pub fn is_valid_zkp(&self, challenge: &Sc) -> (r: Result<(), MpcError>)
        requires
            self.shares_commitment@.len() >= 1,
        ensures
            r is Ok <==> zkp_holds(
                self.zkp.g_k_i@,
                self.zkp.sigma.val(),
                self.shares_commitment@[0]@,
                challenge.val(),
            ),
            r is Err ==> (r matches Err(MpcError::InvalidZkp(offs)) && offs@.len() == 0),
            forall|k: nat, u: nat|
                #![trigger pt_base(k), pt_base(u)]
                k < group_order() && u < group_order() && self.zkp.g_k_i@ == pt_base(k)
                    && self.shares_commitment@[0]@ == pt_base(u) && self.zkp.sigma.val()
                    == add_mod(k, mul_mod(u, challenge.val())) ==> r is Ok,
    {
        let sp = Pt::base_mul(&self.zkp.sigma);
        let ec = Pt::pt_mul_sc(challenge, &self.shares_commitment[0]);
        let rhs = Pt::pt_sub_pt(&sp, &ec);
        let ok = self.zkp.g_k_i.pt_eq(&rhs);
        proof {
            use_type_invariant(challenge);
            Sc::lemma_inv(*challenge);
            use_type_invariant(&self.zkp.sigma);
            Sc::lemma_inv(self.zkp.sigma);
            assert forall|k: nat, u: nat|
                #![trigger pt_base(k), pt_base(u)]
                k < group_order() && u < group_order() && self.zkp.g_k_i@ == pt_base(k)
                    && self.shares_commitment@[0]@ == pt_base(u) && self.zkp.sigma.val()
                    == add_mod(k, mul_mod(u, challenge.val())) implies pt_base(k)
                == rhs@ by {
                let e = challenge.val();
                let m = mul_mod(u, e);
                vstd::arithmetic::div_mod::lemma_mod_bound((u * e) as int, group_order() as int);
                assert(ec@ == pt_base(mul_mod(e, u)));
                assert(e * u == u * e) by (nonlinear_arith);
                assert(mul_mod(e, u) == m);
                assert(sp@ == pt_base(add_mod(k, m)));
                vstd::arithmetic::div_mod::lemma_mod_bound(
                    (k + m) as int,
                    group_order() as int,
                );
                assert(rhs@ == pt_base(crate::scalar::sub_mod(add_mod(k, m), m)));
                lemma_add_sub_cancel(k, m);
            }
        }
        if ok {
            Ok(())
        } else {
            Err(MpcError::InvalidZkp(Vec::new()))
        }
    }

    /// Overwrite the proof response with zeros.
    pub fn zeroize(&mut self)
        ensures
            final(self).zkp.sigma.val() == 0,
    {
        self.zkp.zeroize();
    }
}

/// Whether peer `i`'s proof of knowledge holds against its own challenge.
pub open spec fn peer_zkp_ok(
    ids: Seq<MpcAddr>,
    coms: Seq<KeyGenDKGProposedCommitment>,
    ctx: Seq<u8>,
    i: int,
) -> bool {
    zkp_holds(
        coms[i].zkp.g_k_i@,
        coms[i].zkp.sigma.val(),
        coms[i].shares_commitment@[0]@,
        dkg_challenge_of(coms[i].zkp.g_k_i@, coms[i].shares_commitment@[0]@, ids[i], ctx),
    )
}

/// The peers whose proofs fail, in list order.
pub open spec fn zkp_offenders(
    ids: Seq<MpcAddr>,
    coms: Seq<KeyGenDKGProposedCommitment>,
    ctx: Seq<u8>,
    n: int,
) -> Seq<u32>
    decreases n,
{
    if n <= 0 {
        Seq::<u32>::empty()
    } else {
        let p = zkp_offenders(ids, coms, ctx, n - 1);
        if peer_zkp_ok(ids, coms, ctx, n - 1) {
            p
        } else {
            p.push(ids[n - 1].spec_raw())
        }
    }
}

/// No offenders up to `n` exactly when every peer up to `n` checks out.
pub proof fn lemma_no_offenders(
    ids: Seq<MpcAddr>,
    coms: Seq<KeyGenDKGProposedCommitment>,
    ctx: Seq<u8>,
    n: int,
)
    ensures
        zkp_offenders(ids, coms, ctx, n).len() == 0 <==> (forall|i: int|
            0 <= i < n ==> peer_zkp_ok(ids, coms, ctx, i)),
    decreases n,
{
    if n > 0 {
        lemma_no_offenders(ids, coms, ctx, n - 1);
    }
}

/// Copy a vector of points.
pub fn copy_pts(v: &Vec<Pt>) -> (r: Vec<Pt>)
    ensures
        r@ == v@,
{
    let mut out: Vec<Pt> = Vec::new();
    let mut i: usize = 0;
    while i < v.len()
        invariant
            i <= v@.len(),
            out@ == v@.take(i as int),
        decreases v@.len() - i,
    {
        out.push(v[i]);
        proof {
            assert(v@.take(i as int).push(v@[i as int]) =~= v@.take(i + 1));
        }
        i += 1;
    }
    proof {
        assert(v@.take(v@.len() as int) =~= v@);
    }
    out
}

/// Validate every peer's proof of knowledge against its own challenge and
/// hand back the commitment vectors.  Fails with the full offender list
/// exactly when some proof fails; every proof honestly built from the
/// committed secret passes.
pub fn keygen_validate_peers(
    ids: &Vec<MpcAddr>,
    proposed: &Vec<KeyGenDKGProposedCommitment>,
    context: &str,
) -> (r: Result<Vec<Vec<Pt>>, MpcError>)
    requires
        ids@.len() == proposed@.len(),
        forall|i: int| 0 <= i < proposed@.len() ==> (#[trigger] proposed@[i]).shares_commitment@.len() >= 1,
    ensures
        r is Ok <==> (forall|i: int|
            0 <= i < ids@.len() ==> peer_zkp_ok(ids@, proposed@, context.spec_bytes(), i)),
        r is Ok ==> r.unwrap()@.len() == proposed@.len() && (forall|i: int|
            0 <= i < proposed@.len() ==> (#[trigger] r.unwrap()@[i])@ == proposed@[i].shares_commitment@),
        r is Err ==> (r matches Err(MpcError::InvalidZkp(offs)) && offs@ == zkp_offenders(
            ids@,
            proposed@,
            context.spec_bytes(),
            ids@.len() as int,
        ) && offs@.len() > 0),
{
    let ghost ctx = context.spec_bytes();
    let mut valid: Vec<Vec<Pt>> = Vec::new();
    let mut invalid: Vec<u32> = Vec::new();
    let mut i: usize = 0;
    while i < proposed.len()
        invariant
            i <= proposed@.len(),
            ids@.len() == proposed@.len(),
            ctx == context.spec_bytes(),
            forall|k: int|
                0 <= k < proposed@.len() ==> (#[trigger] proposed@[k]).shares_commitment@.len()
                    >= 1,
            invalid@ == zkp_offenders(ids@, proposed@, ctx, i as int),
            invalid@.len() == 0 ==> valid@.len() == i,
            invalid@.len() == 0 ==> (forall|k: int|
                0 <= k < i ==> (#[trigger] valid@[k])@ == proposed@[k].shares_commitment@),
        decreases proposed@.len() - i,
    {
        let com = &proposed[i];
        let challenge = generate_dkg_challenge(
            ids[i],
            context,
            &com.shares_commitment[0],
            &com.zkp.g_k_i,
        );
        match com.is_valid_zkp(&challenge) {
            Ok(()) => {
                if invalid.len() == 0 {
                    valid.push(copy_pts(&com.shares_commitment));
                }
            },
            Err(_) => {
                invalid.push(ids[i].as_primitive());
            },
        }
        i += 1;
    }
    proof {
        lemma_no_offenders(ids@, proposed@, ctx, ids@.len() as int);
    }
    if invalid.len() > 0 {
        Err(MpcError::InvalidZkp(invalid))
    } else {
        Ok(valid)
    }
}

} // verus!
