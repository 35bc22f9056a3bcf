use mpc_frost::addr::{MpcAddr, ShardId};
use mpc_frost::errors::MpcError;
use mpc_frost::hd::parse_derivation_path;

#[test]
fn addr_packing_roundtrip() {
    let a = MpcAddr::new(3, 17);
    assert_eq!(a.group_id(), 3);
    assert_eq!(a.member_id(), 17);
    assert_eq!(a.as_primitive(), 3 * 0x10000 + 17);
    let b = MpcAddr::from_primitive(a.as_primitive());
    assert_eq!(b, a);
}

#[test]
fn addr_broadcast_sinks() {
    assert_eq!(MpcAddr::bcast_id().as_primitive(), 0);
    let g = MpcAddr::gcast_id(7);
    assert_eq!(g.group_id(), 7);
    assert_eq!(g.member_id(), 0);
}

#[test]
fn addr_be_bytes() {
    let a = MpcAddr::new(0x0102, 0x0304);
    assert_eq!(a.to_be_bytes(), [1, 2, 3, 4]);
}

#[test]
fn addr_from_text_ok() {
    let a = MpcAddr::from_text("1.2").unwrap();
    assert_eq!(a.group_id(), 1);
    assert_eq!(a.member_id(), 2);
    let b = MpcAddr::from_text("65535.65535").unwrap();
    assert_eq!(b.group_id(), 65535);
    assert_eq!(b.member_id(), 65535);
}

#[test]
fn addr_from_text_rejects_bad_forms() {
    assert!(MpcAddr::from_text("").is_err());
    assert!(MpcAddr::from_text("12").is_err());
    assert!(MpcAddr::from_text("1.2.3").is_err());
    assert!(MpcAddr::from_text("x.2").is_err());
    assert!(MpcAddr::from_text("1.").is_err());
    assert!(MpcAddr::from_text(".2").is_err());
    assert!(MpcAddr::from_text("70000.1").is_err());
}

#[test]
fn shard_id_mirrors_addr() {
    let s = ShardId::new(2, 9);
    assert_eq!(s.group_id(), 2);
    assert_eq!(s.member_id(), 9);
    assert_eq!(s.as_primitive(), 2 * 0x10000 + 9);
    assert_eq!(s.to_be_bytes(), [0, 2, 0, 9]);
    assert_eq!(ShardId::bcast_id().as_primitive(), 0);
    assert_eq!(ShardId::gcast_id(2).member_id(), 0);
}

#[test]
fn derivation_path_parses_plain_components() {
    assert_eq!(parse_derivation_path("m").unwrap(), Vec::<u32>::new());
    assert_eq!(parse_derivation_path("m/1/14/514").unwrap(), vec![1, 14, 514]);
    assert_eq!(parse_derivation_path("m/0").unwrap(), vec![0]);
    assert_eq!(parse_derivation_path("m/2147483647").unwrap(), vec![2147483647]);
}

#[test]
fn derivation_path_rejects_hardened_index() {
    // 2^31 and anything above is a hardened index
    assert_eq!(
        parse_derivation_path("m/2147483648"),
        Err(MpcError::DerivationError)
    );
    assert_eq!(
        parse_derivation_path("m/1/4294967295"),
        Err(MpcError::DerivationError)
    );
}

#[test]
fn derivation_path_rejects_bad_syntax() {
    assert!(parse_derivation_path("").is_err());
    assert!(parse_derivation_path("n/1").is_err());
    assert!(parse_derivation_path("m/").is_err());
    assert!(parse_derivation_path("m//1").is_err());
    assert!(parse_derivation_path("m/1'").is_err());
    assert!(parse_derivation_path("m/1h").is_err());
    assert!(parse_derivation_path("m/a").is_err());
    assert!(parse_derivation_path("m1").is_err());
}
