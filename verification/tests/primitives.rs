use mpc_frost::aead::{aes_decrypt, aes_encrypt, AEAD};
use mpc_frost::addr::MpcAddr;
use mpc_frost::dkg::{generate_dkg_challenge, PartyKey};
use mpc_frost::errors::MpcError;
use mpc_frost::hash::{hmac_sha512, sha256, sha512};
use mpc_frost::hd::{eval_chain_code, non_hardened_derive};
use mpc_frost::hexcodec::{bytes_to_hex, hex_to_bytes, point_from_hex, point_to_hex, scalar_from_hex, scalar_to_hex};
use mpc_frost::shard::{GroupCommits, MultiShard, OwnShare};
use mpc_frost::signing::{algo_pubkey, sign_prelude};
use mpc_frost::point::Pt;
use mpc_frost::scalar::Sc;
use mpc_frost::sign::lagrange_lambda;
use mpc_frost::vss::{generate_vss_share, merge_vss_share, scalar_split, verify_vss_share};

fn sc(x: u64) -> Sc {
    Sc::from_u64(x)
}

fn addrs(gid: u16, mids: &[u16]) -> Vec<MpcAddr> {
    mids.iter().map(|m| MpcAddr::new(gid, *m)).collect()
}

#[test]
fn scalar_small_arithmetic() {
    assert_eq!(Sc::sc_add(&sc(5), &sc(7)).to_bytes(), sc(12).to_bytes());
    assert_eq!(Sc::sc_mul(&sc(6), &sc(7)).to_bytes(), sc(42).to_bytes());
    assert_eq!(Sc::sc_sub(&sc(7), &sc(5)).to_bytes(), sc(2).to_bytes());
    assert_eq!(Sc::zero().to_bytes(), sc(0).to_bytes());
    assert_eq!(Sc::one().to_bytes(), sc(1).to_bytes());
    assert!(Sc::zero().is_zero());
    assert!(!Sc::one().is_zero());
}

#[test]
fn scalar_inverse_cancels() {
    let three = sc(3);
    let inv = Sc::sc_invert(&three);
    assert_eq!(Sc::sc_mul(&inv, &three).to_bytes(), Sc::one().to_bytes());
}

#[test]
fn scalar_zeroize_clears() {
    let mut x = sc(99);
    x.zeroize();
    assert!(x.is_zero());
}

#[test]
fn point_base_matches_ed25519_basepoint() {
    let one = Sc::one();
    let b = Pt::base_mul(&one);
    let expected = hex::decode("5866666666666666666666666666666666666666666666666666666666666666")
        .unwrap();
    assert_eq!(b.to_bytes().to_vec(), expected);
}

#[test]
fn point_identity_encoding() {
    let id = Pt::identity();
    let mut expected = [0u8; 32];
    expected[0] = 1;
    assert_eq!(id.to_bytes(), expected);
}

#[test]
fn point_addition_matches_scalar_addition() {
    let two = Pt::base_mul(&sc(2));
    let sum = Pt::pt_add_pt(&Pt::base_mul(&sc(1)), &Pt::base_mul(&sc(1)));
    assert!(two.pt_eq(&sum));
    let five = Pt::pt_mul_sc(&sc(5), &Pt::base_mul(&sc(1)));
    assert!(five.pt_eq(&Pt::base_mul(&sc(5))));
    let diff = Pt::pt_sub_pt(&Pt::base_mul(&sc(7)), &Pt::base_mul(&sc(2)));
    assert!(diff.pt_eq(&Pt::base_mul(&sc(5))));
}

#[test]
fn point_decode_roundtrip() {
    let p = Pt::base_mul(&sc(11));
    let bytes = p.to_bytes().to_vec();
    let q = Pt::from_bytes(&bytes).unwrap();
    assert!(p.pt_eq(&q));
}

#[test]
fn sha256_known_vector() {
    let h = sha256(&b"abc".to_vec());
    assert_eq!(
        hex::encode(&h),
        "ba7816bf8f01cfea414140de5dae2223b00361a396177a9cb410ff61f20015ad"
    );
}

#[test]
fn sha512_known_vector() {
    let h = sha512(&b"abc".to_vec());
    assert_eq!(
        hex::encode(&h),
        "ddaf35a193617abacc417349ae20413112e6fa4e89a97ea20a9eeee64b55d39a\
         2192992a274fc1a836ba3c23a3feebbd454d4423643ce80e2a9ac94fa54ca49f"
    );
}

#[test]
fn hmac_sha512_known_vector() {
    // RFC 4231, test case 2
    let key = b"Jefe".to_vec();
    let data = b"what do ya want for nothing?".to_vec();
    let tag = hmac_sha512(&key, &data);
    assert_eq!(
        hex::encode(&tag),
        "164b7a7bfcf819e2e395fbe73b56e0a387bd64222e831fd610270cd7ea250554\
         9758bf75c05a994a6d034f65f8f0e6fdcaeab1a34d4a6b4b636e070a38bce737"
    );
}

#[test]
fn aead_roundtrip_and_tamper() {
    let key = vec![7u8; 32];
    let plain = vec![42u8; 32];
    let pack = aes_encrypt(&key, &plain).unwrap();
    assert_eq!(pack.tag.len(), 12);
    assert_eq!(pack.ciphertext.len(), plain.len() + 16);
    assert_ne!(&pack.ciphertext[..32], &plain[..]);
    let out = aes_decrypt(&key, &pack).unwrap();
    assert_eq!(out, plain);

    // a flipped ciphertext byte fails authentication
    let mut bad = AEAD { ciphertext: pack.ciphertext.clone(), tag: pack.tag.clone() };
    bad.ciphertext[0] ^= 1;
    assert_eq!(aes_decrypt(&key, &bad), Err(MpcError::CryptoError));

    // a wrong key fails authentication
    let other = vec![8u8; 32];
    assert_eq!(aes_decrypt(&other, &pack), Err(MpcError::CryptoError));
}

#[test]
fn vss_shares_all_verify() {
    // every dealt share passes verification against the commitment
    let members = addrs(1, &[1, 2, 3]);
    let my_id = members[0];
    let u = sc(12345);
    let (coms, shares) = generate_vss_share(&u, my_id, &members, 2).unwrap();
    assert_eq!(coms.len(), 2);
    assert_eq!(shares.len(), 3);
    for (i, m) in members.iter().enumerate() {
        verify_vss_share(*m, &shares[i], &coms).unwrap();
    }
}

#[test]
fn vss_share_tamper_detected() {
    let members = addrs(1, &[1, 2, 3]);
    let (coms, shares) = generate_vss_share(&sc(5), members[0], &members, 2).unwrap();
    let bad = Sc::sc_add(&shares[1], &Sc::one());
    let r = verify_vss_share(members[1], &bad, &coms);
    assert_eq!(r, Err(MpcError::InvalidShare(members[1].as_primitive())));
}

#[test]
fn vss_config_rejected() {
    let members = addrs(1, &[1, 2, 3]);
    // dealer not in members
    let outsider = MpcAddr::new(1, 9);
    assert_eq!(
        generate_vss_share(&sc(5), outsider, &members, 2),
        Err(MpcError::ConfigError)
    );
    // threshold above member count
    assert_eq!(
        generate_vss_share(&sc(5), members[0], &members, 4),
        Err(MpcError::ConfigError)
    );
    // member of another group
    let mixed = vec![MpcAddr::new(1, 1), MpcAddr::new(2, 2)];
    assert_eq!(
        generate_vss_share(&sc(5), mixed[0], &mixed, 1),
        Err(MpcError::ConfigError)
    );
}

#[test]
fn threshold_equal_members_accepted() {
    // th == |members| is a valid dealing
    let members = addrs(1, &[1, 2]);
    let (coms, shares) = generate_vss_share(&sc(9), members[0], &members, 2).unwrap();
    assert_eq!(coms.len(), 2);
    for (i, m) in members.iter().enumerate() {
        verify_vss_share(*m, &shares[i], &coms).unwrap();
    }
}

#[test]
fn merge_names_bad_sender() {
    let members = addrs(1, &[1, 2]);
    let me = members[0];
    let (coms_a, shares_a) = generate_vss_share(&sc(3), me, &members, 2).unwrap();
    let (coms_b, shares_b) = generate_vss_share(&sc(4), members[1], &members, 2).unwrap();
    // my shares from both dealers, but dealer b's share is corrupted
    let my_shares = vec![shares_a[0], Sc::sc_add(&shares_b[0], &Sc::one())];
    let grids = vec![coms_a, coms_b];
    let r = merge_vss_share(&my_shares, &grids, &members, me);
    assert_eq!(r, Err(MpcError::InvalidShare(members[1].as_primitive())));
    // with the honest share the merge succeeds
    let my_shares_ok = vec![shares_a[0], shares_b[0]];
    let x = merge_vss_share(&my_shares_ok, &grids, &members, me).unwrap();
    assert_eq!(
        x.to_bytes(),
        Sc::sc_add(&shares_a[0], &shares_b[0]).to_bytes()
    );
}

#[test]
fn dkg_zkp_validates_and_rejects() {
    // an honestly built proof of knowledge passes; a tampered one fails
    let members = addrs(1, &[1, 2, 3]);
    let my_id = members[0];
    let (st, com) = mpc_frost::keygen::keygen_round1(my_id, members.clone(), 2, "test-ctx")
        .unwrap();
    let challenge =
        generate_dkg_challenge(my_id, "test-ctx", &st.party_key.g_u_i(), &st.party_key.g_k_i());
    com.is_valid_zkp(&challenge).unwrap();

    let bad = mpc_frost::dkg::KeyGenDKGProposedCommitment {
        shares_commitment: com.shares_commitment,
        zkp: mpc_frost::dkg::KeyGenZKP {
            g_k_i: com.zkp.g_k_i,
            sigma: Sc::sc_add(&com.zkp.sigma, &Sc::one()),
        },
    };
    assert!(bad.is_valid_zkp(&challenge).is_err());
}

#[test]
fn party_key_import_and_zeroize() {
    let u = sc(77);
    let mut k = PartyKey::import(u);
    assert_eq!(k.u_i.to_bytes(), u.to_bytes());
    k.zeroize();
    assert!(k.u_i.is_zero());
    assert!(k.k_i.is_zero());
}

#[test]
fn lagrange_exact_small_cases() {
    // signers {1,2}: lambda_1 = 2 / (2 - 1) = 2
    let s12 = addrs(1, &[1, 2]);
    let l1 = lagrange_lambda(s12[0], &s12).unwrap();
    assert_eq!(l1.to_bytes(), sc(2).to_bytes());
    // signers {1,2,3}: lambda_1 = (2*3) / ((2-1)*(3-1)) = 3
    let s123 = addrs(1, &[1, 2, 3]);
    let l1 = lagrange_lambda(s123[0], &s123).unwrap();
    assert_eq!(l1.to_bytes(), sc(3).to_bytes());
}

#[test]
fn lagrange_duplicate_rejected() {
    // another address carrying this signer's member id zeroes the
    // denominator
    let me = MpcAddr::new(1, 1);
    let signers = vec![me, MpcAddr::new(2, 1)];
    assert_eq!(
        lagrange_lambda(me, &signers),
        Err(MpcError::DuplicateSigner(me.as_primitive()))
    );
}

#[test]
fn scalar_split_sums_back() {
    let num = sc(123456789);
    let parts = scalar_split(&num, 4);
    assert_eq!(parts.len(), 4);
    let mut sum = Sc::zero();
    for p in &parts {
        sum = Sc::sc_add(&sum, p);
    }
    assert_eq!(sum.to_bytes(), num.to_bytes());
}

#[test]
fn derive_child_key_is_parent_plus_tweak() {
    // pk' == pk + tweak * B after a non-hardened walk
    let parent_sk = sc(31337);
    let parent_pk = Pt::base_mul(&parent_sk);
    let cc = eval_chain_code(&parent_pk);
    assert_eq!(cc.len(), 32);
    let (tweak, child_pk) = non_hardened_derive("m/1/14/514", &parent_pk, &cc).unwrap();
    let shifted = Pt::pt_add_pt(&parent_pk, &Pt::base_mul(&tweak));
    assert!(child_pk.pt_eq(&shifted));
    // the derived secret signs for the child key
    let child_sk = Sc::sc_add(&parent_sk, &tweak);
    assert!(Pt::base_mul(&child_sk).pt_eq(&child_pk));
}

#[test]
fn hex_codec_roundtrip_and_errors() {
    // exact text of a known byte string
    let v = vec![0x00u8, 0xff, 0x10, 0xab];
    let text = bytes_to_hex(&v);
    assert_eq!(text, b"00ff10ab".to_vec());
    assert_eq!(hex_to_bytes(&text).unwrap(), v);
    // either case decodes
    assert_eq!(hex_to_bytes(&b"00FF10AB".to_vec()).unwrap(), v);
    // odd length and non-digits are rejected
    assert_eq!(hex_to_bytes(&b"abc".to_vec()), Err(MpcError::DerivationError));
    assert_eq!(hex_to_bytes(&b"zz".to_vec()), Err(MpcError::DerivationError));
}

#[test]
fn scalar_and_point_hex_roundtrip() {
    let s = sc(123456);
    let text = scalar_to_hex(&s);
    assert_eq!(text.len(), 64);
    let back = scalar_from_hex(&text).unwrap();
    assert_eq!(back.to_bytes(), s.to_bytes());

    let p = Pt::base_mul(&sc(9));
    let ptext = point_to_hex(&p);
    assert_eq!(ptext.len(), 64);
    let pback = point_from_hex(&ptext).unwrap();
    assert!(p.pt_eq(&pback));

    // wrong length is rejected
    assert_eq!(scalar_from_hex(&b"abcd".to_vec()), Err(MpcError::DerivationError));
    assert!(point_from_hex(&b"abcd".to_vec()).is_err());
}

#[test]
fn derived_pubkey_entry_point() {
    // with an empty path the derived key is the joint key itself
    let members = addrs(1, &[1]);
    let u = sc(4242);
    let (coms, shares) = generate_vss_share(&u, members[0], &members, 1).unwrap();
    let ks = MultiShard {
        own: vec![OwnShare { my_id: members[0], u_i: u, x_i: shares[0] }],
        grid: vec![GroupCommits { gid: 1, members: members.clone(), coms: vec![coms] }],
        aux: None,
    };
    let pk = ks.pk();
    assert!(algo_pubkey(&ks, "").unwrap().pt_eq(&pk));
    // with a path it is the walked child key
    let (tweak, child) = sign_prelude(&ks, "m/7").unwrap();
    assert!(algo_pubkey(&ks, "m/7").unwrap().pt_eq(&child));
    assert!(child.pt_eq(&Pt::pt_add_pt(&pk, &Pt::base_mul(&tweak))));
    // a hardened path is rejected
    assert_eq!(algo_pubkey(&ks, "m/2147483648"), Err(MpcError::DerivationError));
}

#[test]
fn derive_trivial_path_keeps_key() {
    let parent_pk = Pt::base_mul(&sc(5));
    let cc = eval_chain_code(&parent_pk);
    let (tweak, child_pk) = non_hardened_derive("m", &parent_pk, &cc).unwrap();
    assert!(tweak.is_zero());
    assert!(child_pk.pt_eq(&parent_pk));
}
