//! The distributed key generation protocol, round by round.
//!
//! Round 1: deal shares, commit to the polynomial and prove knowledge of
//! the secret; the proposed commitment is broadcast.  Round 2: validate
//! every peer's proof and commitment length, then deliver each member its
//! share under AES-256-GCM keyed by Diffie-Hellman.  Finalize: decrypt the
//! received shares, verify each against its sender's commitment and sum
//! them into the signing key.
//!
//! The messenger that moves the broadcasts and the encrypted shares
//! between parties stays outside; each round here is a pure computation
//! from what was gathered.

use vstd::prelude::*;
use vstd::string::StringSliceAdditionalSpecFns;

use crate::addr::MpcAddr;
use crate::aead::{aead_open, aes_decrypt, aes_encrypt, AEAD};
use crate::dkg::{
    dkg_challenge_of, generate_dkg_challenge, keygen_validate_peers, peer_zkp_ok, zkp_offenders,
    KeyGenDKGProposedCommitment, KeyGenZKP, PartyKey,
};
use crate::errors::MpcError;
use crate::point::{pt_base, pt_mul, Pt};
use crate::scalar::{add_mod, group_order, le_val, mul_mod, Sc};
use crate::shard::{GroupCommits, OwnShare};
use crate::vss::{
    coms_commit, generate_vss_share, merge_vss_share, poly_eval, pts_view, sc_vals,
    vss_config_ok,
};

verus! {

/// The dealer's local state after the first round: the party key and the
/// shares still to be delivered, one per member.
pub struct KeygenRound1 {
    pub party_key: PartyKey,
    pub my_id: MpcAddr,
    pub members: Vec<MpcAddr>,
    pub th: usize,
    pub shares: Vec<Sc>,
}

/// Deal this party's contribution: sample the party key, deal shares of it
/// and build the proposed commitment with its proof of knowledge.
pub fn keygen_round1(my_id: MpcAddr, members: Vec<MpcAddr>, th: usize, context: &str) -> (r:
    Result<(KeygenRound1, KeyGenDKGProposedCommitment), MpcError>)
    ensures
        r is Ok <==> (th >= 1 && vss_config_ok(my_id, members@, th as int)),
        r is Err ==> r matches Err(MpcError::ConfigError),
        r is Ok ==> ({
            let (st, com) = r.unwrap();
            &&& st.my_id == my_id
            &&& st.members@ == members@
            &&& st.th == th
            &&& st.shares@.len() == members@.len()
            &&& com.shares_commitment@.len() == th
            &&& com.zkp.g_k_i@ == pt_base(st.party_key.k_i.val())
            &&& com.shares_commitment@[0]@ == pt_base(st.party_key.u_i.val())
            &&& com.zkp.sigma.val() == add_mod(
                st.party_key.k_i.val(),
                mul_mod(
                    st.party_key.u_i.val(),
                    dkg_challenge_of(
                        pt_base(st.party_key.k_i.val()),
                        pt_base(st.party_key.u_i.val()),
                        my_id,
                        context.spec_bytes(),
                    ),
                ),
            )
            &&& exists|cs: Seq<nat>|
                #![trigger coms_commit(pts_view(com.shares_commitment@), cs)]
                cs.len() == th && cs[0] == st.party_key.u_i.val() && coms_commit(
                    pts_view(com.shares_commitment@),
                    cs,
                ) && (forall|i: int|
                    0 <= i < members@.len() ==> (#[trigger] st.shares@[i]).val() == poly_eval(
                        cs,
                        members@[i].spec_member_id() as nat,
                    ))
        }),
{
    if th < 1 {
        return Err(MpcError::ConfigError);
    }
    let party_key = PartyKey::new();
    let (coms, shares) = match generate_vss_share(&party_key.u_i, my_id, &members, th) {
        Ok(p) => p,
        Err(e) => {
            return Err(e);
        },
    };
    let ghost coms_v = coms@;
    let ghost gcs: Seq<nat> = choose|cs: Seq<nat>|
        #![trigger coms_commit(pts_view(coms_v), cs)]
        cs.len() == th && cs[0] == party_key.u_i.val() && coms_commit(pts_view(coms_v), cs)
            && coms_v.len() == th && shares@.len() == members@.len() && (forall|i: int|
            0 <= i < members@.len() ==> (#[trigger] shares@[i]).val() == poly_eval(
                cs,
                members@[i].spec_member_id() as nat,
            ));
    proof {
        assert(coms_commit(pts_view(coms_v), gcs));
        assert(pts_view(coms_v)[0] == coms_v[0]@);
        assert(coms_v[0]@ == pt_base(gcs[0]));
    }
    let g_u_i = party_key.g_u_i();
    let g_k_i = party_key.g_k_i();
    let challenge = generate_dkg_challenge(my_id, context, &g_u_i, &g_k_i);
    let ue = Sc::sc_mul(&party_key.u_i, &challenge);
    let sigma = Sc::sc_add(&party_key.k_i, &ue);
    let com = KeyGenDKGProposedCommitment {
        shares_commitment: coms,
        zkp: KeyGenZKP { g_k_i, sigma },
    };
    let st = KeygenRound1 { party_key, my_id, members, th, shares };
    proof {
        assert(com.shares_commitment@ == coms_v);
        assert(coms_commit(pts_view(com.shares_commitment@), gcs));
    }
    Ok((st, com))
}

/// Every proposed commitment has exactly the declared threshold length;
/// anything longer would raise the threshold after the fact.
pub open spec fn all_th_len(proposed: Seq<KeyGenDKGProposedCommitment>, th: int) -> bool {
    forall|i: int|
        0 <= i < proposed.len() ==> (#[trigger] proposed[i]).shares_commitment@.len() == th
}

/// Validate a gathered round of proposed commitments for one group:
/// every commitment vector must have the declared threshold length
/// (threshold inflation is rejected peer by peer) and every proof of
/// knowledge must hold.  Returns the group's commitment grid.
pub fn validate_group_commitments(
    gid: u16,
    members: &Vec<MpcAddr>,
    proposed: &Vec<KeyGenDKGProposedCommitment>,
    th: usize,
    context: &str,
) -> (r: Result<GroupCommits, MpcError>)
    requires
        members@.len() == proposed@.len(),
        th >= 1,
    ensures
        r is Ok <==> (all_th_len(proposed@, th as int) && (forall|i: int|
            0 <= i < members@.len() ==> peer_zkp_ok(
                members@,
                proposed@,
                context.spec_bytes(),
                i,
            ))),
        r is Ok ==> ({
            let g = r.unwrap();
            &&& g.gid == gid
            &&& g.members@ == members@
            &&& g.coms@.len() == proposed@.len()
            &&& forall|i: int|
                0 <= i < proposed@.len() ==> (#[trigger] g.coms@[i])@ == proposed@[
                    i
                ].shares_commitment@
        }),
        r is Err ==> (r matches Err(MpcError::ThresholdInflation(a)) && exists|i: int|
            0 <= i < members@.len() && a == (#[trigger] members@[i]).spec_raw() && proposed@[
                i
            ].shares_commitment@.len() != th) || (r matches Err(MpcError::InvalidZkp(offs))
            && offs@ == zkp_offenders(
            members@,
            proposed@,
            context.spec_bytes(),
            members@.len() as int,
        ) && offs@.len() > 0),
{
    let mut i: usize = 0;
    while i < proposed.len()
        invariant
            i <= proposed@.len(),
            members@.len() == proposed@.len(),
            forall|k: int|
                0 <= k < i ==> (#[trigger] proposed@[k]).shares_commitment@.len() == th,
        decreases proposed@.len() - i,
    {
        if proposed[i].shares_commitment.len() != th {
            return Err(MpcError::ThresholdInflation(members[i].as_primitive()));
        }
        i += 1;
    }
    let coms = match keygen_validate_peers(members, proposed, context) {
        Ok(c) => c,
        Err(e) => {
            return Err(e);
        },
    };
    let mut ms: Vec<MpcAddr> = Vec::new();
    let mut k: usize = 0;
    while k < members.len()
        invariant
            k <= members@.len(),
            ms@ == members@.take(k as int),
        decreases members@.len() - k,
    {
        ms.push(members[k]);
        proof {
            assert(members@.take(k as int).push(members@[k as int]) =~= members@.take(k + 1));
        }
        k += 1;
    }
    proof {
        assert(members@.take(members@.len() as int) =~= members@);
    }
    Ok(GroupCommits { gid, members: ms, coms })
}

/// The Diffie-Hellman pairwise key between this party's secret and a
/// peer's committed secret: the compressed encoding of `u_i * C0_j`.
pub open spec fn dh_key_of(u_i: nat, c0: Seq<u8>) -> Seq<u8> {
    pt_mul(u_i, c0)
}

/// Encrypt each member's share under the pairwise Diffie-Hellman key
/// derived from this party's secret and the member's committed secret.
/// Each package decrypts, under the same key, back to the share.
pub fn keygen_round2_encrypt(st: &KeygenRound1, group: &GroupCommits) -> (r: Result<
    Vec<AEAD>,
    MpcError,
>)
    requires
        st.shares@.len() == group.coms@.len(),
        forall|i: int| 0 <= i < group.coms@.len() ==> (#[trigger] group.coms@[i])@.len() >= 1,
    ensures
        r is Ok ==> r.unwrap()@.len() == group.coms@.len(),
        r is Ok ==> (forall|j: int|
            0 <= j < group.coms@.len() ==> aead_open(
                dh_key_of(st.party_key.u_i.val(), group.coms@[j]@[0]@),
                (#[trigger] r.unwrap()@[j]).tag@,
                r.unwrap()@[j].ciphertext@,
            ) == Some(st.shares@[j]@)),
        r is Err ==> r matches Err(MpcError::CryptoError),
{
    let mut out: Vec<AEAD> = Vec::new();
    let mut j: usize = 0;
    while j < group.coms.len()
        invariant
            j <= group.coms@.len(),
            st.shares@.len() == group.coms@.len(),
            forall|i: int|
                0 <= i < group.coms@.len() ==> (#[trigger] group.coms@[i])@.len() >= 1,
            out@.len() == j,
            forall|k: int|
                0 <= k < j ==> aead_open(
                    dh_key_of(st.party_key.u_i.val(), group.coms@[k]@[0]@),
                    (#[trigger] out@[k]).tag@,
                    out@[k].ciphertext@,
                ) == Some(st.shares@[k]@),
        decreases group.coms@.len() - j,
    {
        let dh = Pt::pt_mul_sc(&st.party_key.u_i, &group.coms[j][0]);
        let dhb = dh.to_bytes();
        let mut key: Vec<u8> = Vec::new();
        crate::bytesutil::append_arr(&mut key, &dhb);
        let share = st.shares[j];
        let sb = share.to_bytes();
        let mut plain: Vec<u8> = Vec::new();
        crate::bytesutil::append_arr(&mut plain, &sb);
        proof {
            assert(key@ =~= dh_key_of(st.party_key.u_i.val(), group.coms@[j as int]@[0]@));
            assert(plain@ =~= st.shares@[j as int]@);
        }
        let pack = match aes_encrypt(&key, &plain) {
            Ok(p) => p,
            Err(e) => {
                return Err(e);
            },
        };
        out.push(pack);
        j += 1;
    }
    Ok(out)
}

/// What one gathered package opens to under this party's pairwise key.
pub open spec fn pack_open(st: KeygenRound1, group: GroupCommits, packs: Seq<AEAD>, j: int) -> Option<
    Seq<u8>,
> {
    aead_open(
        dh_key_of(st.party_key.u_i.val(), group.coms[j]@[0]@),
        packs[j].tag@,
        packs[j].ciphertext@,
    )
}

/// One gathered package opens under this party's pairwise key to a
/// 32-byte share.
pub open spec fn pack_decrypts(
    st: KeygenRound1,
    group: GroupCommits,
    packs: Seq<AEAD>,
    j: int,
) -> bool {
    &&& pack_open(st, group, packs, j) is Some
    &&& pack_open(st, group, packs, j).unwrap().len() == 32
}

/// The opened share lies on its sender's committed polynomial.
pub open spec fn pack_share_valid(
    st: KeygenRound1,
    group: GroupCommits,
    packs: Seq<AEAD>,
    j: int,
) -> bool {
    pt_base(le_val(pack_open(st, group, packs, j).unwrap()) % group_order())
        == crate::vss::polycom_eval(pts_view(group.coms[j]@), st.my_id.spec_member_id() as nat)
}

/// Decrypt the gathered share packages with the pairwise keys, check each
/// share against its sender's commitment and sum them into the signing
/// key `x_i`.  Succeeds exactly when every package opens to a 32-byte
/// share that lies on its sender's committed polynomial; a package that
/// fails to open is a crypto failure, an off-polynomial share names its
/// sender.  Every intermediate share buffer is overwritten with zeros
/// before return, on success and on error.
pub fn keygen_finalize(st: &KeygenRound1, group: &GroupCommits, packs: &Vec<AEAD>) -> (r: Result<
    OwnShare,
    MpcError,
>)
    requires
        packs@.len() == group.coms@.len(),
        group.members@.len() == group.coms@.len(),
        forall|i: int| 0 <= i < group.coms@.len() ==> (#[trigger] group.coms@[i])@.len() >= 1,
        forall|i: int| 0 <= i < packs@.len() ==> (#[trigger] packs@[i]).tag@.len() == 12,
    ensures
        r is Ok <==> (forall|j: int|
            0 <= j < packs@.len() ==> #[trigger] pack_decrypts(*st, *group, packs@, j)
                && pack_share_valid(*st, *group, packs@, j)),
        r is Ok ==> r.unwrap().my_id == st.my_id && r.unwrap().u_i == st.party_key.u_i,
        r is Ok ==> exists|shares: Seq<Sc>|
            #![trigger sc_vals(shares)]
            shares.len() == group.coms@.len() && r.unwrap().x_i.val()
                == crate::shard::sum_vals(sc_vals(shares), shares.len() as int) && (forall|
            j: int,
        |
                0 <= j < shares.len() ==> (#[trigger] shares[j]).val() == le_val(
                    pack_open(*st, *group, packs@, j).unwrap(),
                ) % group_order()) && (forall|j: int|
                0 <= j < shares.len() ==> pt_base((#[trigger] shares[j]).val())
                    == crate::vss::polycom_eval(
                    pts_view(group.coms@[j]@),
                    st.my_id.spec_member_id() as nat,
                )),
        r matches Err(MpcError::CryptoError) ==> exists|j: int|
            0 <= j < packs@.len() && !(#[trigger] pack_decrypts(*st, *group, packs@, j)),
        r matches Err(MpcError::InvalidShare(a)) ==> (forall|j: int|
            0 <= j < packs@.len() ==> #[trigger] pack_decrypts(*st, *group, packs@, j)) && (
        exists|j: int|
            0 <= j < group.members@.len() && a == (#[trigger] group.members@[j]).spec_raw()
                && !pack_share_valid(*st, *group, packs@, j)),
        r is Err ==> (r matches Err(MpcError::CryptoError) || r matches Err(
            MpcError::InvalidShare(a2),
        )),
{
    let mut party_shares: Vec<Sc> = Vec::new();
    let mut j: usize = 0;
    while j < packs.len()
        invariant
            j <= packs@.len(),
            packs@.len() == group.coms@.len(),
            forall|i: int|
                0 <= i < group.coms@.len() ==> (#[trigger] group.coms@[i])@.len() >= 1,
            forall|i: int| 0 <= i < packs@.len() ==> (#[trigger] packs@[i]).tag@.len() == 12,
            party_shares@.len() == j,
            forall|k: int| 0 <= k < j ==> #[trigger] pack_decrypts(*st, *group, packs@, k),
            forall|k: int|
                0 <= k < j ==> (#[trigger] party_shares@[k]).val() == le_val(
                    pack_open(*st, *group, packs@, k).unwrap(),
                ) % group_order(),
        decreases packs@.len() - j,
    {
        let dh = Pt::pt_mul_sc(&st.party_key.u_i, &group.coms[j][0]);
        let dhb = dh.to_bytes();
        let mut key: Vec<u8> = Vec::new();
        crate::bytesutil::append_arr(&mut key, &dhb);
        proof {
            assert(key@ =~= dh_key_of(st.party_key.u_i.val(), group.coms@[j as int]@[0]@));
        }
        let mut plain = match aes_decrypt(&key, &packs[j]) {
            Ok(p) => p,
            Err(e) => {
                proof {
                    assert(!pack_decrypts(*st, *group, packs@, j as int));
                }
                crate::vss::zeroize_all(&mut party_shares);
                return Err(e);
            },
        };
        if plain.len() != 32 {
            proof {
                assert(!pack_decrypts(*st, *group, packs@, j as int));
            }
            crate::bytesutil::zeroize_bytes(&mut plain);
            crate::vss::zeroize_all(&mut party_shares);
            return Err(MpcError::CryptoError);
        }
        let s = Sc::from_bytes_mod_order(&plain);
        crate::bytesutil::zeroize_bytes(&mut plain);
        party_shares.push(s);
        j += 1;
    }
    let x_i = match merge_vss_share(&party_shares, &group.coms, &group.members, st.my_id) {
        Ok(x) => x,
        Err(e) => {
            proof {
                let jb = choose|jb: int|
                    0 <= jb < group.members@.len() && Err::<Sc, MpcError>(e) == Err::<
                        Sc,
                        MpcError,
                    >(MpcError::InvalidShare(group.members@[jb].spec_raw())) && pt_base(
                        party_shares@[jb].val(),
                    ) != crate::vss::polycom_eval(
                        pts_view(group.coms@[jb]@),
                        st.my_id.spec_member_id() as nat,
                    );
                assert(!pack_share_valid(*st, *group, packs@, jb));
                assert(pack_decrypts(*st, *group, packs@, jb));
                assert(!(pack_decrypts(*st, *group, packs@, jb) && pack_share_valid(
                    *st,
                    *group,
                    packs@,
                    jb,
                )));
            }
            crate::vss::zeroize_all(&mut party_shares);
            return Err(e);
        },
    };
    let ghost shares_kept = party_shares@;
    proof {
        assert(sc_vals(shares_kept).len() == group.coms@.len());
        assert forall|k: int|
            0 <= k < packs@.len() implies #[trigger] pack_decrypts(*st, *group, packs@, k)
            && pack_share_valid(*st, *group, packs@, k) by {
            assert(pt_base(party_shares@[k].val()) == crate::vss::polycom_eval(
                pts_view(group.coms@[k]@),
                st.my_id.spec_member_id() as nat,
            ));
        }
    }
    crate::vss::zeroize_all(&mut party_shares);
    Ok(OwnShare { my_id: st.my_id, u_i: st.party_key.u_i, x_i })
}

impl GroupCommits {
    /// Decide well-formedness executably: sorted members of this group
    /// with nonzero member ids, aligned commitment vectors of one length.
    pub fn check(&self) -> (r: bool)
        ensures
            r == self.wf(),
    {
        if self.members.len() < 1 {
            return false;
        }
        if self.coms.len() != self.members.len() {
            return false;
        }
        let th = self.coms[0].len();
        if th < 1 {
            return false;
        }
        let mut i: usize = 0;
        while i < self.members.len()
            invariant
                i <= self.members@.len(),
                self.members@.len() >= 1,
                self.coms@.len() == self.members@.len(),
                th == self.spec_th(),
                th >= 1,
                forall|k: int|
                    0 <= k < i ==> (#[trigger] self.members@[k]).spec_group_id() == self.gid
                        && self.members@[k].spec_member_id() != 0,
                forall|k: int| 0 <= k < i ==> (#[trigger] self.coms@[k])@.len() == th,
                forall|k1: int, k2: int|
                    0 <= k1 < k2 < i ==> self.members@[k1].spec_raw()
                        < self.members@[k2].spec_raw(),
            decreases self.members@.len() - i,
        {
            let m = self.members[i];
            if m.group_id() != self.gid || m.member_id() == 0 {
                return false;
            }
            if self.coms[i].len() != th {
                return false;
            }
            if i > 0 {
                if self.members[i - 1].raw >= m.raw {
                    return false;
                }
            }
            proof {
                assert forall|k1: int, k2: int|
                    0 <= k1 < k2 < i + 1 implies self.members@[k1].spec_raw()
                    < self.members@[k2].spec_raw() by {
                    if k2 == i && k1 < i - 1 {
                        assert(self.members@[k1].spec_raw() < self.members@[i - 1].spec_raw());
                    }
                }
            }
            i += 1;
        }
        true
    }
}

} // verus!
