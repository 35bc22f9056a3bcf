//! The signing protocol: derivation prelude, per-round computations and
//! the final aggregation.
//!
//! The messenger that moves nonce commitments and responses between the
//! signers stays outside; each step here is a pure computation from what
//! was gathered.  The signers of a session are grouped by group id, groups
//! ascending and signers ascending within each group, so that every party
//! hashes the commitment list in the same ascending address order.

use vstd::prelude::*;
use vstd::string::StringSliceAdditionalSpecFns;

use crate::addr::MpcAddr;
use crate::errors::MpcError;
use crate::hash::sha512_of;
use crate::hd::{eval_chain_code, hd_pk, hd_tweak, non_hardened_derive, parse_path};
use crate::point::{pt_add, pt_base, pt_mul, Pt};
use crate::scalar::{add_mod, Sc};
use crate::shard::{
    addrs_sorted, c0s_of, find_gid, sum_pts, sum_vals, GroupCommits, MultiShard, OwnShare,
};
use crate::sign::{
    gen_rho_i, generate_challenge, is_valid_response, response_valid, rho_of, signature_valid,
    verify_signature, verify_solana, Signature, SigningCommitmentPair,
};
use crate::vss::{eval_xi_com, grids_view, sc_vals, xi_com_of};

verus! {

/// The signers of one group in a signing session.
pub struct SignGroup {
    pub gid: u16,
    pub signers: Vec<MpcAddr>,
}

/// A well-formed session architecture: groups ascending by id, signers of
/// each group sorted, nonempty, in their group, member ids nonzero.
pub open spec fn arch_wf(arch: Seq<SignGroup>) -> bool {
    &&& forall|i: int, j: int|
        0 <= i < j < arch.len() ==> (#[trigger] arch[i]).gid < (#[trigger] arch[j]).gid
    &&& forall|g: int|
        0 <= g < arch.len() ==> {
            let grp = #[trigger] arch[g];
            &&& grp.signers@.len() >= 1
            &&& addrs_sorted(grp.signers@)
            &&& forall|k: int|
                0 <= k < grp.signers@.len() ==> (#[trigger] grp.signers@[k]).spec_group_id()
                    == grp.gid && grp.signers@[k].spec_member_id() != 0
        }
}

/// The concatenation of all groups' signer lists, groups in order.
pub open spec fn flat_signers(arch: Seq<SignGroup>, n: int) -> Seq<MpcAddr>
    decreases n,
{
    if n <= 0 {
        Seq::<MpcAddr>::empty()
    } else {
        flat_signers(arch, n - 1) + arch[n - 1].signers@
    }
}

/// Flatten the session architecture into the full ascending signer list.
/// Fails when the flattened list is not strictly ascending, which among
/// well-formed groups cannot happen.
pub fn flatten_signers(arch: &Vec<SignGroup>) -> (r: Result<Vec<MpcAddr>, MpcError>)
    ensures
        r is Ok <==> addrs_sorted(flat_signers(arch@, arch@.len() as int)),
        r is Ok ==> r.unwrap()@ == flat_signers(arch@, arch@.len() as int),
        r is Err ==> r == Err::<Vec<MpcAddr>, MpcError>(MpcError::ConfigError),
{
    let mut out: Vec<MpcAddr> = Vec::new();
    let mut g: usize = 0;
    proof {
        assert(out@ =~= flat_signers(arch@, 0));
    }
    while g < arch.len()
        invariant
            g <= arch@.len(),
            out@ == flat_signers(arch@, g as int),
        decreases arch@.len() - g,
    {
        let grp = &arch[g];
        let mut k: usize = 0;
        while k < grp.signers.len()
            invariant
                k <= grp.signers@.len(),
                grp == arch@[g as int],
                0 <= g < arch@.len(),
                out@ == flat_signers(arch@, g as int) + grp.signers@.take(k as int),
            decreases grp.signers@.len() - k,
        {
            out.push(grp.signers[k]);
            proof {
                assert(out@ =~= flat_signers(arch@, g as int) + grp.signers@.take(k + 1));
            }
            k += 1;
        }
        proof {
            assert(grp.signers@.take(grp.signers@.len() as int) =~= grp.signers@);
            assert(out@ =~= flat_signers(arch@, g as int + 1));
        }
        g += 1;
    }
    let mut i: usize = 1;
    while i < out.len()
        invariant
            1 <= i || out@.len() == 0,
            i <= out@.len() || out@.len() == 0,
            out@ == flat_signers(arch@, arch@.len() as int),
            forall|a: int, b: int| 0 <= a < b < i ==> out@[a].spec_raw() < out@[b].spec_raw(),
        decreases out@.len() - i,
    {
        if out[i - 1].raw >= out[i].raw {
            return Err(MpcError::ConfigError);
        }
        proof {
            assert forall|a: int, b: int|
                0 <= a < b < i + 1 implies out@[a].spec_raw() < out@[b].spec_raw() by {
                if b == i && a < i - 1 {
                    assert(out@[a].spec_raw() < out@[i - 1].spec_raw());
                }
            }
        }
        i += 1;
    }
    Ok(out)
}

/// Accept only hashed messages: at most 64 bytes.
pub fn check_msg_hash(msg: &Vec<u8>) -> (r: Result<(), MpcError>)
    ensures
        r is Ok <==> msg@.len() <= 64,
        r is Err ==> r == Err::<(), MpcError>(MpcError::ConfigError),
{
    if msg.len() > 64 {
        Err(MpcError::ConfigError)
    } else {
        Ok(())
    }
}

/// The joint public key of a keystore, as a spec value.
pub open spec fn keystore_pk(ks: MultiShard) -> Seq<u8> {
    sum_pts(
        c0s_of(ks.grid@, ks.grid@.len() as int),
        c0s_of(ks.grid@, ks.grid@.len() as int).len() as int,
    )
}

/// The derivation prelude: compute the chain code from the joint public
/// key and walk the derivation path.  An empty path yields tweak zero and
/// the unchanged joint public key; otherwise the path must parse with only
/// non-hardened indices.
pub fn sign_prelude(keystore: &MultiShard, drv_path: &str) -> (r: Result<(Sc, Pt), MpcError>)
    requires
        keystore.wf(),
    ensures
        drv_path@.len() == 0 ==> r is Ok && r.unwrap().0.val() == 0 && r.unwrap().1@
            == keystore_pk(*keystore),
        drv_path@.len() != 0 ==> (r is Ok <==> parse_path(drv_path.spec_bytes()) is Some),
        drv_path@.len() != 0 && r is Ok ==> ({
            let cc = sha512_of(keystore_pk(*keystore)).take(32);
            &&& r.unwrap().0.val() == hd_tweak(
                keystore_pk(*keystore),
                cc,
                parse_path(drv_path.spec_bytes()).unwrap(),
                0,
            )
            &&& r.unwrap().1@ == hd_pk(
                keystore_pk(*keystore),
                cc,
                parse_path(drv_path.spec_bytes()).unwrap(),
            )
        }),
        r is Err ==> r == Err::<(Sc, Pt), MpcError>(MpcError::DerivationError),
{
    let main_pk = keystore.pk();
    if drv_path.unicode_len() == 0 {
        return Ok((Sc::zero(), main_pk));
    }
    let cc = eval_chain_code(&main_pk);
    non_hardened_derive(drv_path, &main_pk, &cc)
}

/// The (possibly derived) public key of a keystore: the joint key for an
/// empty path, otherwise the child key at the derivation path.
pub fn algo_pubkey(keystore: &MultiShard, dpath: &str) -> (r: Result<Pt, MpcError>)
    requires
        keystore.wf(),
    ensures
        dpath@.len() == 0 ==> r is Ok && r.unwrap()@ == keystore_pk(*keystore),
        dpath@.len() != 0 ==> (r is Ok <==> parse_path(dpath.spec_bytes()) is Some),
        dpath@.len() != 0 && r is Ok ==> r.unwrap()@ == hd_pk(
            keystore_pk(*keystore),
            sha512_of(keystore_pk(*keystore)).take(32),
            parse_path(dpath.spec_bytes()).unwrap(),
        ),
        r is Err ==> r == Err::<Pt, MpcError>(MpcError::DerivationError),
{
    match sign_prelude(keystore, dpath) {
        Ok((_, pk)) => Ok(pk),
        Err(e) => Err(e),
    }
}

/// Apply the derivation tweak to a local copy of the keystore.  The pivot
/// signer's constant-term commitment row absorbs `tweak * B`; that shifts
/// the recomputed key share of every member of the pivot's group by
/// `tweak * B`, so every owned signing share of that group absorbs `tweak`.
/// Within the group the Lagrange coefficients sum to one, so the aggregate
/// response shifts by exactly `tweak * c` and the Schnorr relation holds
/// against the derived key.  All other entries are unchanged.
pub fn apply_derivation_tweak(keystore: &MultiShard, pivot: MpcAddr, tweak: &Sc) -> (r: Result<
    MultiShard,
    MpcError,
>)
    requires
        keystore.wf(),
    ensures
        r is Ok,
        r is Ok ==> ({
            let ks = r.unwrap();
            &&& ks.wf()
            &&& ks.grid@.len() == keystore.grid@.len()
            &&& ks.own@.len() == keystore.own@.len()
            &&& forall|g: int|
                0 <= g < ks.grid@.len() ==> (#[trigger] ks.grid@[g]).gid == keystore.grid@[
                    g
                ].gid && ks.grid@[g].members@ == keystore.grid@[g].members@ && ks.grid@[
                    g
                ].coms@.len() == keystore.grid@[g].coms@.len()
            &&& forall|g: int, m: int|
                0 <= g < ks.grid@.len() && 0 <= m < ks.grid@[g].coms@.len() ==> (
                #[trigger] ks.grid@[g].coms@[m])@.len() == keystore.grid@[g].coms@[m]@.len()
            &&& forall|g: int, m: int|
                0 <= g < ks.grid@.len() && 0 <= m < ks.grid@[g].coms@.len() && !(
                keystore.grid@[g].gid == pivot.spec_group_id() && keystore.grid@[g].members@[m]
                    == pivot) ==> (#[trigger] ks.grid@[g].coms@[m])@ == keystore.grid@[
                    g
                ].coms@[m]@
            &&& forall|g: int, m: int|
                0 <= g < ks.grid@.len() && 0 <= m < ks.grid@[g].coms@.len() && keystore.grid@[
                    g
                ].gid == pivot.spec_group_id() && keystore.grid@[g].members@[m] == pivot ==> (
                #[trigger] ks.grid@[g].coms@[m])@[0]@ == pt_add(
                    keystore.grid@[g].coms@[m]@[0]@,
                    pt_base(tweak.val()),
                ) && ks.grid@[g].coms@[m]@.skip(1) == keystore.grid@[g].coms@[m]@.skip(1)
            &&& forall|o: int|
                0 <= o < ks.own@.len() ==> (#[trigger] ks.own@[o]).my_id == keystore.own@[
                    o
                ].my_id && ks.own@[o].u_i == keystore.own@[o].u_i
            &&& forall|o: int|
                0 <= o < ks.own@.len() && keystore.own@[o].my_id.spec_group_id()
                    != pivot.spec_group_id() ==> (#[trigger] ks.own@[o]).x_i == keystore.own@[
                    o
                ].x_i
            &&& forall|o: int|
                0 <= o < ks.own@.len() && keystore.own@[o].my_id.spec_group_id()
                    == pivot.spec_group_id() ==> (#[trigger] ks.own@[o]).x_i.val() == add_mod(
                    keystore.own@[o].x_i.val(),
                    tweak.val(),
                )
        }),
        r is Err ==> r == Err::<MultiShard, MpcError>(MpcError::ConfigError),
{
    let tweak_pt = Pt::base_mul(tweak);
    let mut grid: Vec<GroupCommits> = Vec::new();
    let mut g: usize = 0;
    let mut pivot_seen = false;
    while g < keystore.grid.len()
        invariant
            g <= keystore.grid@.len(),
            keystore.wf(),
            tweak_pt@ == pt_base(tweak.val()),
            grid@.len() == g,
            forall|k: int|
                0 <= k < g ==> (#[trigger] grid@[k]).gid == keystore.grid@[k].gid && grid@[
                    k
                ].members@ == keystore.grid@[k].members@ && grid@[k].coms@.len()
                    == keystore.grid@[k].coms@.len(),
            forall|k: int, m: int|
                0 <= k < g && 0 <= m < grid@[k].coms@.len() ==> (#[trigger] grid@[
                    k
                ].coms@[m])@.len() == keystore.grid@[k].coms@[m]@.len(),
            forall|k: int, m: int|
                0 <= k < g && 0 <= m < grid@[k].coms@.len() && !(keystore.grid@[k].gid
                    == pivot.spec_group_id() && keystore.grid@[k].members@[m] == pivot) ==> (
                #[trigger] grid@[k].coms@[m])@ == keystore.grid@[k].coms@[m]@,
            forall|k: int, m: int|
                0 <= k < g && 0 <= m < grid@[k].coms@.len() && keystore.grid@[k].gid
                    == pivot.spec_group_id() && keystore.grid@[k].members@[m] == pivot ==> (
                #[trigger] grid@[k].coms@[m])@[0]@ == pt_add(
                    keystore.grid@[k].coms@[m]@[0]@,
                    pt_base(tweak.val()),
                ) && grid@[k].coms@[m]@.skip(1) == keystore.grid@[k].coms@[m]@.skip(1),
        decreases keystore.grid@.len() - g,
    {
        let src = &keystore.grid[g];
        let mut coms: Vec<Vec<Pt>> = Vec::new();
        let mut m: usize = 0;
        while m < src.coms.len()
            invariant
                m <= src.coms@.len(),
                keystore.wf(),
                src == keystore.grid@[g as int],
                0 <= g < keystore.grid@.len(),
                tweak_pt@ == pt_base(tweak.val()),
                coms@.len() == m,
                forall|k: int|
                    0 <= k < m ==> (#[trigger] coms@[k])@.len() == src.coms@[k]@.len(),
                forall|k: int|
                    0 <= k < m && !(src.gid == pivot.spec_group_id() && src.members@[k]
                        == pivot) ==> (#[trigger] coms@[k])@ == src.coms@[k]@,
                forall|k: int|
                    0 <= k < m && src.gid == pivot.spec_group_id() && src.members@[k] == pivot
                        ==> (#[trigger] coms@[k])@[0]@ == pt_add(
                        src.coms@[k]@[0]@,
                        pt_base(tweak.val()),
                    ) && coms@[k]@.skip(1) == src.coms@[k]@.skip(1),
            decreases src.coms@.len() - m,
        {
            let mut row = crate::dkg::copy_pts(&src.coms[m]);
            proof {
                assert(keystore.grid@[g as int].wf());
                assert(src.coms@[m as int]@.len() >= 1);
                assert(src.coms@.len() == src.members@.len());
            }
            if src.gid == pivot.group_id() && src.members[m].raw == pivot.raw {
                let shifted = Pt::pt_add_pt(&row[0], &tweak_pt);
                row.set(0, shifted);
                pivot_seen = true;
                proof {
                    assert(src.members@[m as int] == pivot);
                    assert(row@.skip(1) =~= src.coms@[m as int]@.skip(1));
                }
            } else {
                proof {
                    if src.gid == pivot.spec_group_id() && src.members@[m as int] == pivot {
                        assert(false);
                    }
                }
            }
            coms.push(row);
            m += 1;
        }
        let members = crate::signing::copy_addrs(&src.members);
        grid.push(GroupCommits { gid: src.gid, members, coms });
        g += 1;
    }
    // own shares: the pivot owner's signing share absorbs the tweak
    let mut own: Vec<OwnShare> = Vec::new();
    let mut o: usize = 0;
    while o < keystore.own.len()
        invariant
            o <= keystore.own@.len(),
            own@.len() == o,
            forall|k: int|
                0 <= k < o ==> (#[trigger] own@[k]).my_id == keystore.own@[k].my_id && own@[
                    k
                ].u_i == keystore.own@[k].u_i,
            forall|k: int|
                0 <= k < o && keystore.own@[k].my_id.spec_group_id() != pivot.spec_group_id()
                    ==> (#[trigger] own@[k]).x_i == keystore.own@[k].x_i,
            forall|k: int|
                0 <= k < o && keystore.own@[k].my_id.spec_group_id() == pivot.spec_group_id()
                    ==> (#[trigger] own@[k]).x_i.val() == add_mod(
                    keystore.own@[k].x_i.val(),
                    tweak.val(),
                ),
        decreases keystore.own@.len() - o,
    {
        let e = &keystore.own[o];
        let x_i = if e.my_id.group_id() == pivot.group_id() {
            Sc::sc_add(&e.x_i, tweak)
        } else {
            e.x_i
        };
        own.push(OwnShare { my_id: e.my_id, u_i: e.u_i, x_i });
        o += 1;
    }
    let ks = MultiShard { own, grid, aux: None };
    proof {
        assert forall|k: int| 0 <= k < ks.grid@.len() implies (#[trigger] ks.grid@[k]).wf() by {
            assert(keystore.grid@[k].wf());
            assert(ks.grid@[k].members@ == keystore.grid@[k].members@);
            assert(ks.grid@[k].coms@[0]@.len() == keystore.grid@[k].coms@[0]@.len());
            assert forall|m: int|
                0 <= m < ks.grid@[k].coms@.len() implies (#[trigger] ks.grid@[k].coms@[m])@.len()
                == ks.grid@[k].spec_th() by {
                assert(ks.grid@[k].coms@[m]@.len() == keystore.grid@[k].coms@[m]@.len());
                assert(keystore.grid@[k].coms@[m]@.len() == keystore.grid@[k].spec_th());
            }
        }
        assert forall|i: int|
            0 <= i < ks.own@.len() implies find_gid(
            ks.grid@,
            (#[trigger] ks.own@[i]).my_id.spec_group_id(),
        ) is Some by {
            assert(keystore.own@[i].my_id == ks.own@[i].my_id);
            assert(find_gid(keystore.grid@, ks.own@[i].my_id.spec_group_id()) is Some);
            let gi = choose|gi: int|
                0 <= gi < keystore.grid@.len() && keystore.grid@[gi].gid == ks.own@[
                    i
                ].my_id.spec_group_id();
            assert(ks.grid@[gi].gid == ks.own@[i].my_id.spec_group_id());
        }
    }
    Ok(ks)
}

/// Copy an address vector.
pub fn copy_addrs(v: &Vec<MpcAddr>) -> (r: Vec<MpcAddr>)
    ensures
        r@ == v@,
{
    let mut out: Vec<MpcAddr> = Vec::new();
    let mut i: usize = 0;
    while i < v.len()
        invariant
            i <= v@.len(),
            out@ == v@.take(i as int),
        decreases v@.len() - i,
    {
        out.push(v[i]);
        proof {
            assert(v@.take(i as int).push(v@[i as int]) =~= v@.take(i + 1));
        }
        i += 1;
    }
    proof {
        assert(v@.take(v@.len() as int) =~= v@);
    }
    out
}

/// Abort when a peer has posted this signer's own nonce commitment pair:
/// holds exactly when no other slot carries the same two points.
pub fn check_own_com_unique(
    my_index: usize,
    all_signers: &Vec<MpcAddr>,
    coms: &Vec<SigningCommitmentPair>,
) -> (r: Result<(), MpcError>)
    requires
        my_index < coms@.len(),
        all_signers@.len() == coms@.len(),
    ensures
        r is Ok <==> (forall|j: int|
            0 <= j < coms@.len() && j != my_index ==> !((#[trigger] coms@[j]).g_d@ == coms@[
                my_index as int
            ].g_d@ && coms@[j].g_e@ == coms@[my_index as int].g_e@)),
        r is Err ==> (r matches Err(MpcError::DuplicateSigner(a)) && exists|j: int|
            0 <= j < coms@.len() && j != my_index && a == (#[trigger] all_signers@[j]).spec_raw()
                && coms@[j].g_d@ == coms@[my_index as int].g_d@ && coms@[j].g_e@ == coms@[
                my_index as int
            ].g_e@),
{
    let mut j: usize = 0;
    while j < coms.len()
        invariant
            j <= coms@.len(),
            my_index < coms@.len(),
            all_signers@.len() == coms@.len(),
            forall|k: int|
                0 <= k < j && k != my_index ==> !((#[trigger] coms@[k]).g_d@ == coms@[
                    my_index as int
                ].g_d@ && coms@[k].g_e@ == coms@[my_index as int].g_e@),
        decreases coms@.len() - j,
    {
        if j != my_index {
            if coms[j].g_d.pt_eq(&coms[my_index].g_d) && coms[j].g_e.pt_eq(&coms[my_index].g_e) {
                return Err(MpcError::DuplicateSigner(all_signers[j].as_primitive()));
            }
        }
        j += 1;
    }
    Ok(())
}

/// The binding value of every signer over the full ascending commitment
/// list.
pub fn compute_rho_dict(
    msg: &Vec<u8>,
    all_signers: &Vec<MpcAddr>,
    coms: &Vec<SigningCommitmentPair>,
) -> (r: Vec<Sc>)
    requires
        all_signers@.len() == coms@.len(),
    ensures
        r@.len() == all_signers@.len(),
        forall|j: int|
            0 <= j < all_signers@.len() ==> (#[trigger] r@[j]).val() == rho_of(
                all_signers@[j],
                msg@,
                all_signers@,
                coms@,
            ),
{
    let mut out: Vec<Sc> = Vec::new();
    let mut j: usize = 0;
    while j < all_signers.len()
        invariant
            j <= all_signers@.len(),
            all_signers@.len() == coms@.len(),
            out@.len() == j,
            forall|k: int|
                0 <= k < j ==> (#[trigger] out@[k]).val() == rho_of(
                    all_signers@[k],
                    msg@,
                    all_signers@,
                    coms@,
                ),
        decreases all_signers@.len() - j,
    {
        let rho = gen_rho_i(all_signers[j], msg, all_signers, coms);
        out.push(rho);
        j += 1;
    }
    out
}

/// The public key share `x_j * B` of every signer, per group, computed
/// from the (possibly tweaked) commitment grid.  Fails when a session
/// group is not present in the grid.
pub fn sign_xjg_dict(keystore: &MultiShard, arch: &Vec<SignGroup>) -> (r: Result<
    Vec<Vec<Pt>>,
    MpcError,
>)
    requires
        keystore.wf(),
    ensures
        r is Ok <==> (forall|g: int|
            0 <= g < arch@.len() ==> find_gid(keystore.grid@, (#[trigger] arch@[g]).gid) is Some),
        r is Ok ==> r.unwrap()@.len() == arch@.len() && (forall|g: int, k: int|
            0 <= g < arch@.len() && 0 <= k < arch@[g].signers@.len() ==> (#[trigger] r.unwrap()@[
                g
            ]@[k])@ == xi_com_of(
                grids_view(group_of(keystore.grid@, arch@[g].gid).coms@),
                arch@[g].signers@[k].spec_member_id() as nat,
                group_of(keystore.grid@, arch@[g].gid).coms@.len() as int,
            )) && (forall|g: int|
            0 <= g < arch@.len() ==> (#[trigger] r.unwrap()@[g])@.len() == arch@[
                g
            ].signers@.len()),
        r is Err ==> r == Err::<Vec<Vec<Pt>>, MpcError>(MpcError::ConfigError),
{
    let mut out: Vec<Vec<Pt>> = Vec::new();
    let mut g: usize = 0;
    while g < arch.len()
        invariant
            g <= arch@.len(),
            keystore.wf(),
            out@.len() == g,
            forall|k: int|
                0 <= k < g ==> find_gid(keystore.grid@, (#[trigger] arch@[k]).gid) is Some,
            forall|k: int|
                0 <= k < g ==> (#[trigger] out@[k])@.len() == arch@[k].signers@.len(),
            forall|k: int, j: int|
                0 <= k < g && 0 <= j < arch@[k].signers@.len() ==> (#[trigger] out@[k]@[j])@
                    == xi_com_of(
                    grids_view(group_of(keystore.grid@, arch@[k].gid).coms@),
                    arch@[k].signers@[j].spec_member_id() as nat,
                    group_of(keystore.grid@, arch@[k].gid).coms@.len() as int,
                ),
        decreases arch@.len() - g,
    {
        let grp = &arch[g];
        let gi = match keystore.find_group(grp.gid) {
            Some(i) => i,
            None => {
                return Err(MpcError::ConfigError);
            },
        };
        proof {
            lemma_group_of(keystore.grid@, grp.gid, gi as int);
        }
        let mut row: Vec<Pt> = Vec::new();
        let mut k: usize = 0;
        while k < grp.signers.len()
            invariant
                k <= grp.signers@.len(),
                keystore.wf(),
                grp == arch@[g as int],
                0 <= g < arch@.len(),
                0 <= gi < keystore.grid@.len(),
                keystore.grid@[gi as int] == group_of(keystore.grid@, grp.gid),
                row@.len() == k,
                forall|j: int|
                    0 <= j < k ==> (#[trigger] row@[j])@ == xi_com_of(
                        grids_view(group_of(keystore.grid@, grp.gid).coms@),
                        grp.signers@[j].spec_member_id() as nat,
                        group_of(keystore.grid@, grp.gid).coms@.len() as int,
                    ),
            decreases grp.signers@.len() - k,
        {
            let p = eval_xi_com(grp.signers[k], &keystore.grid[gi].coms);
            row.push(p);
            k += 1;
        }
        out.push(row);
        g += 1;
    }
    Ok(out)
}

/// The group of the grid carrying the given id, where one exists.
pub open spec fn group_of(grid: Seq<GroupCommits>, gid: u16) -> GroupCommits {
    grid[choose|i: int| 0 <= i < grid.len() && grid[i].gid == gid]
}

/// A found index pins down `group_of` when group ids are unique.
pub proof fn lemma_group_of(grid: Seq<GroupCommits>, gid: u16, i: int)
    requires
        0 <= i < grid.len(),
        grid[i].gid == gid,
        forall|a: int, b: int|
            0 <= a < b < grid.len() ==> (#[trigger] grid[a]).gid < (#[trigger] grid[b]).gid,
    ensures
        group_of(grid, gid) == grid[i],
{
    let j = choose|j: int| 0 <= j < grid.len() && grid[j].gid == gid;
    if j != i {
        if j < i {
            assert(grid[j].gid < grid[i].gid);
        } else {
            assert(grid[i].gid < grid[j].gid);
        }
    }
}

/// Every response passes its equation under the session challenge.
pub open spec fn all_responses_valid(
    all_signers: Seq<MpcAddr>,
    coms: Seq<SigningCommitmentPair>,
    rhos: Seq<Sc>,
    resps: Seq<Sc>,
    xjgs: Seq<Pt>,
    lambdas: Seq<Sc>,
    sig_r: Seq<u8>,
    child_pk: Seq<u8>,
    msg: Seq<u8>,
) -> bool {
    forall|j: int|
        0 <= j < all_signers.len() ==> response_valid(
            (#[trigger] resps[j]).val(),
            xjgs[j]@,
            lambdas[j].val(),
            pt_add(coms[j].g_d@, pt_mul(rhos[j].val(), coms[j].g_e@)),
            crate::sign::challenge_of(sig_r, child_pk, msg),
        )
}

/// Validate every signer's response, aggregate them, and check the final
/// Schnorr equation and the independent Ed25519 verifier.  The inputs are
/// aligned with the full ascending signer list; `lambdas` carries each
/// signer's Lagrange coefficient within its own group and `xjgs` its
/// public key share from the commitment grid.  Succeeds exactly when
/// every response passes, the aggregate passes the Schnorr equation and
/// the independent verifier accepts the 64-byte encoding.
pub fn sign_aggregate_responses(
    msg: &Vec<u8>,
    all_signers: &Vec<MpcAddr>,
    coms: &Vec<SigningCommitmentPair>,
    rhos: &Vec<Sc>,
    resps: &Vec<Sc>,
    xjgs: &Vec<Pt>,
    lambdas: &Vec<Sc>,
    sig_r: &Pt,
    child_pk: &Pt,
) -> (r: Result<Signature, MpcError>)
    requires
        all_signers@.len() == coms@.len(),
        all_signers@.len() == rhos@.len(),
        all_signers@.len() == resps@.len(),
        all_signers@.len() == xjgs@.len(),
        all_signers@.len() == lambdas@.len(),
    ensures
        r is Ok <==> (all_responses_valid(
            all_signers@,
            coms@,
            rhos@,
            resps@,
            xjgs@,
            lambdas@,
            sig_r@,
            child_pk@,
            msg@,
        ) && signature_valid(
            sig_r@,
            sum_vals(sc_vals(resps@), resps@.len() as int),
            msg@,
            child_pk@,
        ) && crate::sign::ed25519_strict_ok(
            child_pk@,
            msg@,
            sig_r@ + crate::scalar::le_bytes(sum_vals(sc_vals(resps@), resps@.len() as int), 32),
        )),
        r is Ok ==> ({
            let sig = r.unwrap();
            &&& sig.r == sig_r
            &&& sig.hash@ == msg@
            &&& sig.s.val() == sum_vals(sc_vals(resps@), resps@.len() as int)
            &&& signature_valid(sig_r@, sig.s.val(), msg@, child_pk@)
            &&& crate::sign::ed25519_strict_ok(child_pk@, msg@, sig_r@ + sig.s@)
        }),
        r matches Err(MpcError::InvalidSignature) ==> all_responses_valid(
            all_signers@,
            coms@,
            rhos@,
            resps@,
            xjgs@,
            lambdas@,
            sig_r@,
            child_pk@,
            msg@,
        ) && !(signature_valid(
            sig_r@,
            sum_vals(sc_vals(resps@), resps@.len() as int),
            msg@,
            child_pk@,
        ) && crate::sign::ed25519_strict_ok(
            child_pk@,
            msg@,
            sig_r@ + crate::scalar::le_bytes(sum_vals(sc_vals(resps@), resps@.len() as int), 32),
        )),
        r is Err ==> (r matches Err(MpcError::InvalidResponse(a)) && exists|j: int|
            0 <= j < all_signers@.len() && a == (#[trigger] all_signers@[j]).spec_raw()
                && !response_valid(
                resps@[j].val(),
                xjgs@[j]@,
                lambdas@[j].val(),
                pt_add(coms@[j].g_d@, pt_mul(rhos@[j].val(), coms@[j].g_e@)),
                crate::sign::challenge_of(sig_r@, child_pk@, msg@),
            )) || r matches Err(MpcError::InvalidSignature),
{
    let challenge = generate_challenge(msg, sig_r, child_pk);
    let mut j: usize = 0;
    while j < all_signers.len()
        invariant
            j <= all_signers@.len(),
            all_signers@.len() == coms@.len(),
            all_signers@.len() == rhos@.len(),
            all_signers@.len() == resps@.len(),
            all_signers@.len() == xjgs@.len(),
            all_signers@.len() == lambdas@.len(),
            challenge.val() == crate::sign::challenge_of(sig_r@, child_pk@, msg@),
            forall|k: int|
                0 <= k < j ==> response_valid(
                    (#[trigger] resps@[k]).val(),
                    xjgs@[k]@,
                    lambdas@[k].val(),
                    pt_add(coms@[k].g_d@, pt_mul(rhos@[k].val(), coms@[k].g_e@)),
                    crate::sign::challenge_of(sig_r@, child_pk@, msg@),
                ),
        decreases all_signers@.len() - j,
    {
        let re = Pt::pt_mul_sc(&rhos[j], &coms[j].g_e);
        let com_j = Pt::pt_add_pt(&coms[j].g_d, &re);
        if !is_valid_response(&resps[j], &xjgs[j], &lambdas[j], &com_j, &challenge) {
            proof {
                assert(!all_responses_valid(
                    all_signers@,
                    coms@,
                    rhos@,
                    resps@,
                    xjgs@,
                    lambdas@,
                    sig_r@,
                    child_pk@,
                    msg@,
                ));
            }
            return Err(MpcError::InvalidResponse(all_signers[j].as_primitive()));
        }
        j += 1;
    }
    let mut s = Sc::zero();
    let mut k: usize = 0;
    while k < resps.len()
        invariant
            k <= resps@.len(),
            s.val() == sum_vals(sc_vals(resps@), k as int),
        decreases resps@.len() - k,
    {
        s = Sc::sc_add(&s, &resps[k]);
        k += 1;
    }
    let hash = crate::hd::clone_bytes(msg);
    let sig = Signature { r: *sig_r, s, hash };
    proof {
        use_type_invariant(&sig.s);
        Sc::lemma_inv(sig.s);
        crate::scalar::lemma_le_bytes_of_val(sig.s@);
        assert(crate::scalar::le_bytes(
            sum_vals(sc_vals(resps@), resps@.len() as int),
            32,
        ) == sig.s@);
        assert(all_responses_valid(
            all_signers@,
            coms@,
            rhos@,
            resps@,
            xjgs@,
            lambdas@,
            sig_r@,
            child_pk@,
            msg@,
        ));
    }
    match verify_signature(&sig, child_pk) {
        Ok(()) => {},
        Err(_) => {
            return Err(MpcError::InvalidSignature);
        },
    }
    match verify_solana(&sig, child_pk) {
        Ok(()) => {},
        Err(_) => {
            return Err(MpcError::InvalidSignature);
        },
    }
    Ok(sig)
}

} // verus!
