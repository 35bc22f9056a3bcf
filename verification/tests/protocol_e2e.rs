use mpc_frost::addr::MpcAddr;
use mpc_frost::aead::AEAD;
use mpc_frost::errors::MpcError;
use mpc_frost::hash::sha512;
use mpc_frost::keygen::{
    keygen_finalize, keygen_round1, keygen_round2_encrypt, validate_group_commitments,
    KeygenRound1,
};
use mpc_frost::point::Pt;
use mpc_frost::scalar::Sc;
use mpc_frost::shard::{GroupCommits, MultiShard, OwnShare};
use mpc_frost::sign::{
    agg_nonce_com, lagrange_lambda, sign_preprocess, verify_signature, verify_solana, Signature,
};
use mpc_frost::signing::{
    apply_derivation_tweak, check_msg_hash, check_own_com_unique, compute_rho_dict,
    flatten_signers, sign_aggregate_responses, sign_prelude, sign_xjg_dict, SignGroup,
};

fn addrs(gid: u16, mids: &[u16]) -> Vec<MpcAddr> {
    mids.iter().map(|m| MpcAddr::new(gid, *m)).collect()
}

fn copy_group(g: &GroupCommits) -> GroupCommits {
    GroupCommits {
        gid: g.gid,
        members: g.members.clone(),
        coms: g.coms.iter().map(|row| row.to_vec()).collect(),
    }
}

/// Run an honest keygen for one group entirely in memory; returns one
/// (round-1 state, validated grid, own share) triple per member.
fn run_group_keygen(
    gid: u16,
    mids: &[u16],
    th: usize,
    context: &str,
) -> (Vec<KeygenRound1>, Vec<GroupCommits>, Vec<OwnShare>) {
    let members = addrs(gid, mids);
    let n = members.len();

    // round 1: everyone deals and broadcasts a proposed commitment
    let mut states = Vec::new();
    let mut proposed = Vec::new();
    for i in 0..n {
        let (st, com) = keygen_round1(members[i], members.clone(), th, context).unwrap();
        states.push(st);
        proposed.push(com);
    }

    // every member validates the gathered commitments
    let mut groups = Vec::new();
    for _ in 0..n {
        groups.push(validate_group_commitments(gid, &members, &proposed, th, context).unwrap());
    }

    // round 2: everyone encrypts one share per member
    let mut sent: Vec<Vec<AEAD>> = Vec::new();
    for i in 0..n {
        sent.push(keygen_round2_encrypt(&states[i], &groups[i]).unwrap());
    }

    // finalize: each member gathers the packages addressed to it
    let mut own = Vec::new();
    for j in 0..n {
        let packs: Vec<AEAD> = sent
            .iter()
            .map(|row| AEAD {
                ciphertext: row[j].ciphertext.clone(),
                tag: row[j].tag.clone(),
            })
            .collect();
        own.push(keygen_finalize(&states[j], &groups[j], &packs).unwrap());
    }
    (states, groups, own)
}

/// Run an honest signing session over the given per-group signer sets.
fn run_sign(
    parties: &[(Vec<MpcAddr>, MultiShard)],
    arch_spec: &[(u16, Vec<u16>)],
    path: &str,
    msg: Vec<u8>,
) -> Result<Signature, MpcError> {
    check_msg_hash(&msg)?;
    let arch: Vec<SignGroup> = arch_spec
        .iter()
        .map(|(g, ms)| SignGroup { gid: *g, signers: addrs(*g, ms) })
        .collect();
    let all = flatten_signers(&arch)?;
    let (tweak, child_pk) = sign_prelude(&parties[0].1, path)?;
    let pivot = all[0];

    // round 1: one nonce pair per signer, commitments broadcast
    let mut coms = Vec::new();
    let mut nonces = Vec::new();
    for _ in 0..all.len() {
        let (c, nc) = sign_preprocess()?;
        coms.push(c);
        nonces.push(nc);
    }

    // round 2: binding values, aggregate nonce, one response per signer
    let rhos = compute_rho_dict(&msg, &all, &coms);
    let sig_r = agg_nonce_com(&coms, &rhos);
    let mut resps = Vec::new();
    for (idx, s) in all.iter().enumerate() {
        let (_, keystore) = parties
            .iter()
            .find(|(ids, _)| ids.iter().any(|a| a.as_primitive() == s.as_primitive()))
            .expect("signer has a keystore");
        let tweaked = apply_derivation_tweak(keystore, pivot, &tweak)?;
        let own = tweaked
            .own
            .iter()
            .find(|o| o.my_id.as_primitive() == s.as_primitive())
            .expect("signer owns its share");
        let grp = arch.iter().find(|g| g.gid == s.group_id()).unwrap();
        let z = mpc_frost::sign::sign_and_respond(
            *s,
            &own.x_i,
            &rhos[idx],
            &sig_r,
            &nonces[idx],
            &grp.signers,
            &child_pk,
            &msg,
        )?;
        resps.push(z);
    }

    // finalize: validate every response, aggregate and verify
    let tweaked0 = apply_derivation_tweak(&parties[0].1, pivot, &tweak)?;
    let xjg_rows = sign_xjg_dict(&tweaked0, &arch)?;
    let xjgs: Vec<Pt> = xjg_rows.into_iter().flatten().collect();
    let mut lambdas = Vec::new();
    for s in &all {
        let grp = arch.iter().find(|g| g.gid == s.group_id()).unwrap();
        lambdas.push(lagrange_lambda(*s, &grp.signers)?);
    }
    sign_aggregate_responses(&msg, &all, &coms, &rhos, &resps, &xjgs, &lambdas, &sig_r, &child_pk)
}

fn single_group_parties(
    gid: u16,
    mids: &[u16],
    th: usize,
) -> Vec<(Vec<MpcAddr>, MultiShard)> {
    let (_, groups, own) = run_group_keygen(gid, mids, th, "e2e");
    own.into_iter()
        .zip(groups.into_iter())
        .map(|(o, g)| {
            let ids = vec![o.my_id];
            (ids, MultiShard { own: vec![o], grid: vec![g], aux: None })
        })
        .collect()
}

#[test]
fn keygen_parties_agree_on_public_key() {
    // every honest party derives the same joint public key from its grid
    let parties = single_group_parties(1, &[1, 2, 3], 2);
    let pk0 = parties[0].1.pk();
    for (_, ks) in &parties {
        assert!(ks.pk().pt_eq(&pk0));
    }
    // and the key is the sum of the committed secrets' public parts
    let mut c0_sum = Pt::identity();
    for row in &parties[0].1.grid[0].coms {
        c0_sum = Pt::pt_add_pt(&c0_sum, &row[0]);
    }
    assert!(pk0.pt_eq(&c0_sum));
}

#[test]
fn threshold_signing_verifies() {
    // th = 2 of 3, two signers, empty path, 32 zero bytes
    let parties = single_group_parties(1, &[1, 2, 3], 2);
    let pk = parties[0].1.pk();
    let sig = run_sign(&parties, &[(1, vec![1, 2])], "", vec![0u8; 32]).unwrap();
    verify_signature(&sig, &pk).unwrap();
    verify_solana(&sig, &pk).unwrap();
    assert_eq!(sig.to_bytes64().len(), 64);
}

#[test]
fn signing_with_derivation_verifies_against_child_key() {
    // th = 2 of 3, all three signers, derived key
    let parties = single_group_parties(1, &[1, 2, 3], 2);
    let (tweak, child_pk) = sign_prelude(&parties[0].1, "m/1/14/514").unwrap();
    let shifted = Pt::pt_add_pt(&parties[0].1.pk(), &Pt::base_mul(&tweak));
    assert!(child_pk.pt_eq(&shifted));
    let msg = sha512(&b"test".to_vec());
    let sig = run_sign(&parties, &[(1, vec![1, 2, 3])], "m/1/14/514", msg).unwrap();
    verify_signature(&sig, &child_pk).unwrap();
    verify_solana(&sig, &child_pk).unwrap();
}

#[test]
fn too_few_signers_yields_invalid_signature() {
    // one signer under a threshold of two: the per-response checks pass
    // but the aggregate fails the final Schnorr check
    let parties = single_group_parties(1, &[1, 2, 3], 2);
    let r = run_sign(&parties, &[(1, vec![1])], "", vec![7u8; 32]);
    assert_eq!(r, Err(MpcError::InvalidSignature));
}

#[test]
fn disjoint_quorums_sign_for_the_same_key() {
    // two disjoint signer sets of threshold size sign the same message;
    // both signatures verify against the same key and differ in bytes
    let parties = single_group_parties(1, &[1, 2, 3, 4], 2);
    let pk = parties[0].1.pk();
    let msg = vec![5u8; 32];
    let sig_a = run_sign(&parties, &[(1, vec![1, 2])], "", msg.clone()).unwrap();
    let sig_b = run_sign(&parties, &[(1, vec![3, 4])], "", msg).unwrap();
    verify_signature(&sig_a, &pk).unwrap();
    verify_signature(&sig_b, &pk).unwrap();
    assert_ne!(sig_a.to_bytes64(), sig_b.to_bytes64());
}

#[test]
fn full_member_set_threshold_signs() {
    // th == |members|: keygen accepted, signing needs all members
    let parties = single_group_parties(1, &[1, 2], 2);
    let pk = parties[0].1.pk();
    let sig = run_sign(&parties, &[(1, vec![1, 2])], "", vec![1u8; 32]).unwrap();
    verify_signature(&sig, &pk).unwrap();
    // fewer than all members cannot produce a valid signature
    let r = run_sign(&parties, &[(1, vec![1])], "", vec![1u8; 32]);
    assert_eq!(r, Err(MpcError::InvalidSignature));
}

#[test]
fn single_signer_threshold_one() {
    // th == 1 reduces to trivial single-signer Schnorr
    let parties = single_group_parties(1, &[1], 1);
    let pk = parties[0].1.pk();
    let sig = run_sign(&parties, &[(1, vec![1])], "", vec![9u8; 32]).unwrap();
    verify_signature(&sig, &pk).unwrap();
    verify_solana(&sig, &pk).unwrap();
}

#[test]
fn multi_group_session_signs_and_verifies() {
    // three groups with their own thresholds; the logical key is the sum
    // of the group keys and a derived child key is signed for
    let ctx = "multi";
    let (_, groups1, own1) = run_group_keygen(1, &[1, 2, 3], 2, ctx);
    let (_, groups2, own2) = run_group_keygen(2, &[1, 2, 3], 2, ctx);
    let (_, groups3, own3) = run_group_keygen(3, &[1, 2], 1, ctx);

    // each party of group 1 also stores the other groups' grids; for the
    // test one party per group is enough to produce every response, so
    // build one keystore per (group, member)
    let mut parties: Vec<(Vec<MpcAddr>, MultiShard)> = Vec::new();
    for (i, o) in own1.into_iter().enumerate() {
        let grid = vec![copy_group(&groups1[i]), copy_group(&groups2[0]), copy_group(&groups3[0])];
        parties.push((vec![o.my_id], MultiShard { own: vec![o], grid, aux: None }));
    }
    for (i, o) in own2.into_iter().enumerate() {
        let grid = vec![copy_group(&groups1[0]), copy_group(&groups2[i]), copy_group(&groups3[0])];
        parties.push((vec![o.my_id], MultiShard { own: vec![o], grid, aux: None }));
    }
    for (i, o) in own3.into_iter().enumerate() {
        let grid = vec![copy_group(&groups1[0]), copy_group(&groups2[0]), copy_group(&groups3[i])];
        parties.push((vec![o.my_id], MultiShard { own: vec![o], grid, aux: None }));
    }

    let pk = parties[0].1.pk();
    for (_, ks) in &parties {
        assert!(ks.pk().pt_eq(&pk));
    }

    let (tweak, child_pk) = sign_prelude(&parties[0].1, "m/1/14/514").unwrap();
    assert!(child_pk.pt_eq(&Pt::pt_add_pt(&pk, &Pt::base_mul(&tweak))));

    let msg = sha512(&b"Je pense, donc je suis.".to_vec());
    let arch = [
        (1u16, vec![1u16, 3]),
        (2u16, vec![2u16, 3]),
        (3u16, vec![2u16]),
    ];
    let sig = run_sign(&parties, &arch, "m/1/14/514", msg).unwrap();
    verify_signature(&sig, &child_pk).unwrap();
    verify_solana(&sig, &child_pk).unwrap();
}

#[test]
fn keygen_aborts_on_bad_zkp_with_offender() {
    // a peer with a corrupted proof of knowledge is named in the abort
    let members = addrs(1, &[1, 2, 3]);
    let mut proposed = Vec::new();
    for m in &members {
        let (_, com) = keygen_round1(*m, members.clone(), 2, "zkp").unwrap();
        proposed.push(com);
    }
    // corrupt the second peer's response
    proposed[1].zkp.sigma = Sc::sc_add(&proposed[1].zkp.sigma, &Sc::one());
    let r = validate_group_commitments(1, &members, &proposed, 2, "zkp");
    assert_eq!(
        r.err().unwrap(),
        MpcError::InvalidZkp(vec![members[1].as_primitive()])
    );
}

#[test]
fn keygen_rejects_threshold_inflation() {
    // a commitment vector longer than the declared threshold is rejected,
    // naming the peer
    let members = addrs(1, &[1, 2, 3]);
    let mut proposed = Vec::new();
    for m in &members {
        let (_, com) = keygen_round1(*m, members.clone(), 2, "infl").unwrap();
        proposed.push(com);
    }
    proposed[2].shares_commitment.push(Pt::identity());
    let r = validate_group_commitments(1, &members, &proposed, 2, "infl");
    assert_eq!(
        r.err().unwrap(),
        MpcError::ThresholdInflation(members[2].as_primitive())
    );
}

#[test]
fn keygen_aborts_on_inconsistent_share() {
    // a delivered share inconsistent with its commitment aborts the
    // finalize step naming the sender
    let gid = 1u16;
    let members = addrs(gid, &[1, 2, 3]);
    let n = members.len();
    let mut states = Vec::new();
    let mut proposed = Vec::new();
    for i in 0..n {
        let (st, com) = keygen_round1(members[i], members.clone(), 2, "bad-share").unwrap();
        states.push(st);
        proposed.push(com);
    }
    let group = validate_group_commitments(gid, &members, &proposed, 2, "bad-share").unwrap();
    // sender 1 corrupts the share meant for member 0
    states[1].shares[0] = Sc::sc_add(&states[1].shares[0], &Sc::one());
    let mut sent: Vec<Vec<AEAD>> = Vec::new();
    for i in 0..n {
        let g = copy_group(&group);
        sent.push(keygen_round2_encrypt(&states[i], &g).unwrap());
    }
    let packs: Vec<AEAD> = sent
        .iter()
        .map(|row| AEAD { ciphertext: row[0].ciphertext.clone(), tag: row[0].tag.clone() })
        .collect();
    let r = keygen_finalize(&states[0], &group, &packs);
    assert_eq!(r.err().unwrap(), MpcError::InvalidShare(members[1].as_primitive()));
}

#[test]
fn tampered_response_is_named() {
    // a corrupted response fails the per-signer check, naming the signer
    let parties = single_group_parties(1, &[1, 2, 3], 2);
    let msg = vec![3u8; 32];
    let arch = vec![SignGroup { gid: 1, signers: addrs(1, &[1, 2]) }];
    let all = flatten_signers(&arch).unwrap();
    let (tweak, child_pk) = sign_prelude(&parties[0].1, "").unwrap();
    let pivot = all[0];
    let mut coms = Vec::new();
    let mut nonces = Vec::new();
    for _ in 0..all.len() {
        let (c, nc) = sign_preprocess().unwrap();
        coms.push(c);
        nonces.push(nc);
    }
    let rhos = compute_rho_dict(&msg, &all, &coms);
    let sig_r = agg_nonce_com(&coms, &rhos);
    let mut resps = Vec::new();
    for (idx, s) in all.iter().enumerate() {
        let ks = &parties[idx].1;
        let tweaked = apply_derivation_tweak(ks, pivot, &tweak).unwrap();
        let z = mpc_frost::sign::sign_and_respond(
            *s,
            &tweaked.own[0].x_i,
            &rhos[idx],
            &sig_r,
            &nonces[idx],
            &arch[0].signers,
            &child_pk,
            &msg,
        )
        .unwrap();
        resps.push(z);
    }
    // signer 2 lies about its response
    resps[1] = Sc::sc_add(&resps[1], &Sc::one());
    let tweaked0 = apply_derivation_tweak(&parties[0].1, pivot, &tweak).unwrap();
    let xjgs: Vec<Pt> = sign_xjg_dict(&tweaked0, &arch).unwrap().into_iter().flatten().collect();
    let lambdas: Vec<Sc> = all.iter().map(|s| lagrange_lambda(*s, &arch[0].signers).unwrap()).collect();
    let r = sign_aggregate_responses(
        &msg, &all, &coms, &rhos, &resps, &xjgs, &lambdas, &sig_r, &child_pk,
    );
    assert_eq!(r.err().unwrap(), MpcError::InvalidResponse(all[1].as_primitive()));
}

#[test]
fn message_hash_length_boundary() {
    // exactly 64 bytes accepted, 65 rejected
    assert!(check_msg_hash(&vec![0u8; 64]).is_ok());
    assert_eq!(check_msg_hash(&vec![0u8; 65]), Err(MpcError::ConfigError));
    // a 64-byte hash signs end to end
    let parties = single_group_parties(1, &[1, 2], 2);
    let pk = parties[0].1.pk();
    let sig = run_sign(&parties, &[(1, vec![1, 2])], "", vec![0u8; 64]).unwrap();
    verify_signature(&sig, &pk).unwrap();
    // a 65-byte input is rejected before any round
    let r = run_sign(&parties, &[(1, vec![1, 2])], "", vec![0u8; 65]);
    assert_eq!(r, Err(MpcError::ConfigError));
}

#[test]
fn signing_rejects_hardened_derivation() {
    let parties = single_group_parties(1, &[1, 2], 2);
    let r = run_sign(&parties, &[(1, vec![1, 2])], "m/2147483648", vec![0u8; 32]);
    assert_eq!(r, Err(MpcError::DerivationError));
}

#[test]
fn duplicated_nonce_commitment_is_rejected() {
    // a peer that replays this signer's commitment pair is named
    let signers = addrs(1, &[1, 2, 3]);
    let mut coms = Vec::new();
    for _ in 0..3 {
        let (c, _) = sign_preprocess().unwrap();
        coms.push(c);
    }
    check_own_com_unique(0, &signers, &coms).unwrap();
    // peer 3 replays signer 1's pair
    coms[2] = mpc_frost::sign::SigningCommitmentPair { g_d: coms[0].g_d, g_e: coms[0].g_e };
    let r = check_own_com_unique(0, &signers, &coms);
    assert_eq!(r, Err(MpcError::DuplicateSigner(signers[2].as_primitive())));
}

#[test]
fn keystore_threshold_lookup() {
    let parties = single_group_parties(4, &[1, 2, 3], 2);
    assert_eq!(parties[0].1.th(4).unwrap(), 2);
    assert_eq!(parties[0].1.th(5), Err(MpcError::ConfigError));
    assert!(parties[0].1.grid[0].check());
}
