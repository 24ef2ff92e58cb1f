use curve25519_dalek::constants::RISTRETTO_BASEPOINT_COMPRESSED;
use rand_core::{OsRng, RngCore};
use tari_crypto::commitment::{FormatError, PedersenCommitment};
use tari_crypto::factory::{CommitmentError, ExtendedPedersenCommitmentFactory, NUMS_TABLE_SIZE};
use tari_crypto::keys::{RistrettoPublicKey, RistrettoSecretKey};

fn random_key(rng: &mut OsRng) -> RistrettoSecretKey {
    let mut bytes = [0u8; 64];
    rng.fill_bytes(&mut bytes);
    RistrettoSecretKey::from_uniform_bytes(&bytes)
}

#[test]
fn degree_zero_matches_single_generator_commit() {
    let mut rng = OsRng;
    let factory = ExtendedPedersenCommitmentFactory::new_with_extension_degree(0).unwrap();
    for _ in 0..10 {
        let k = random_key(&mut rng);
        let v = random_key(&mut rng);
        let single = factory.commit(&k, &v);
        let extended = factory.commit_extended(&[k.clone()], &v).unwrap();
        assert_eq!(single, extended);
        assert!(factory.open(&k, &v, &extended));
        assert!(factory.open_extended(&[k.clone()], &v, &single).unwrap());
    }
}

#[test]
fn extension_degree_rejection() {
    for d in 0..6 {
        let factory = ExtendedPedersenCommitmentFactory::new_with_extension_degree(d).unwrap();
        let v = RistrettoSecretKey::from_u64(5);
        let empty: Vec<RistrettoSecretKey> = Vec::new();
        assert_eq!(factory.commit_extended(&empty, &v), Err(CommitmentError::ExtensionDegree));
        let too_long = vec![RistrettoSecretKey::from_u64(3); d + 2];
        assert_eq!(factory.commit_extended(&too_long, &v), Err(CommitmentError::ExtensionDegree));
        let c = factory.zero_extended();
        assert_eq!(factory.open_extended(&empty, &v, &c), Err(CommitmentError::ExtensionDegree));
        assert_eq!(factory.open_extended(&too_long, &v, &c), Err(CommitmentError::ExtensionDegree));
        assert_eq!(factory.commit_value_extended(&too_long, 7), Err(CommitmentError::ExtensionDegree));
        assert_eq!(factory.open_value_extended(&empty, 7, &c), Err(CommitmentError::ExtensionDegree));
        let full = vec![RistrettoSecretKey::from_u64(3); d + 1];
        assert!(factory.commit_extended(&full, &v).is_ok());
    }
}

#[test]
fn factory_degree_limit() {
    assert!(ExtendedPedersenCommitmentFactory::new_with_extension_degree(NUMS_TABLE_SIZE - 1).is_ok());
    assert!(matches!(
        ExtendedPedersenCommitmentFactory::new_with_extension_degree(NUMS_TABLE_SIZE),
        Err(CommitmentError::ExtensionDegree)
    ));
    assert!(matches!(
        ExtendedPedersenCommitmentFactory::new_with_extension_degree(usize::MAX),
        Err(CommitmentError::ExtensionDegree)
    ));
}

#[test]
fn generators_are_distinct() {
    let factory = ExtendedPedersenCommitmentFactory::new_with_extension_degree(NUMS_TABLE_SIZE - 1).unwrap();
    let mut all = vec![factory.h_base_compressed()];
    for i in 0..NUMS_TABLE_SIZE {
        all.push(factory.g_base_compressed(i));
    }
    for i in 0..all.len() {
        assert_ne!(all[i], [0u8; 32]);
        for j in i + 1..all.len() {
            assert_ne!(all[i], all[j]);
        }
    }
}

#[test]
fn unit_value_commits_to_value_generator() {
    let factory = ExtendedPedersenCommitmentFactory::default();
    let zero = RistrettoSecretKey::zero();
    let c = factory.commit_value(&zero, 1);
    assert_eq!(c.to_binary(), factory.h_base_compressed().to_vec());
    let one = RistrettoSecretKey::from_u64(1);
    let c = factory.commit_value(&one, 0);
    assert_eq!(c.to_binary(), RISTRETTO_BASEPOINT_COMPRESSED.to_bytes().to_vec());
}

#[test]
fn zero_commitment_is_identity() {
    let factory = ExtendedPedersenCommitmentFactory::default();
    let zero = RistrettoSecretKey::zero();
    assert_eq!(factory.zero(), factory.commit(&zero, &zero));
    assert_eq!(factory.zero().to_binary(), vec![0u8; 32]);
    assert_eq!(factory.zero().to_base64(), "AAAAAAAAAAAAAAAAAAAAAAAAAAAAAAAAAAAAAAAAAAA=");
    let c = factory.commit_value(&RistrettoSecretKey::from_u64(9), 11);
    assert_eq!(c.add(&factory.zero()), c);
    assert_eq!(PedersenCommitment::sum(&Vec::new()), factory.zero());
}

#[test]
fn small_values_add_up() {
    let factory = ExtendedPedersenCommitmentFactory::new_with_extension_degree(2).unwrap();
    let a = vec![RistrettoSecretKey::from_u64(1), RistrettoSecretKey::from_u64(2)];
    let b = vec![RistrettoSecretKey::from_u64(10), RistrettoSecretKey::from_u64(20)];
    let s = vec![RistrettoSecretKey::from_u64(11), RistrettoSecretKey::from_u64(22)];
    let ca = factory.commit_value_extended(&a, 100).unwrap();
    let cb = factory.commit_value_extended(&b, 200).unwrap();
    let cs = factory.commit_value_extended(&s, 300).unwrap();
    assert_eq!(ca.add(&cb), cs);
    assert_eq!(PedersenCommitment::sum(&vec![ca, cb]), cs);
    assert!(factory.open_value_extended(&s, 300, &ca.add(&cb)).unwrap());
    assert!(!factory.open_value_extended(&s, 301, &ca.add(&cb)).unwrap());
}

#[test]
fn public_key_addition_at_degree_zero() {
    let factory = ExtendedPedersenCommitmentFactory::default();
    let k1 = RistrettoSecretKey::from_u64(5);
    let k2 = RistrettoSecretKey::from_u64(8);
    let c = factory.commit_value(&k1, 77);
    let pk = RistrettoPublicKey::from_secret_key(&k2);
    assert_eq!(c.add_public_key(&pk), factory.commit_value(&RistrettoSecretKey::from_u64(13), 77));
}

#[test]
fn binary_format_errors() {
    assert_eq!(PedersenCommitment::from_binary(&[0u8; 31]), Err(FormatError::WrongLength));
    assert_eq!(PedersenCommitment::from_binary(&[0u8; 33]), Err(FormatError::WrongLength));
    assert_eq!(PedersenCommitment::from_binary(&[0xffu8; 32]), Err(FormatError::NotAPoint));
    let mut bytes = RISTRETTO_BASEPOINT_COMPRESSED.to_bytes();
    bytes[31] |= 0x80;
    assert_eq!(PedersenCommitment::from_binary(&bytes), Err(FormatError::NotAPoint));
    let ok = PedersenCommitment::from_binary(&RISTRETTO_BASEPOINT_COMPRESSED.to_bytes()).unwrap();
    assert_eq!(ok.to_binary(), RISTRETTO_BASEPOINT_COMPRESSED.to_bytes().to_vec());
}

#[test]
fn base64_format_errors() {
    assert_eq!(PedersenCommitment::from_base64("bad@ser$"), Err(FormatError::NotBase64));
    assert_eq!(PedersenCommitment::from_base64("AAAA"), Err(FormatError::WrongLength));
    assert_eq!(
        PedersenCommitment::from_base64("//////////////////////////////////////////8="),
        Err(FormatError::NotAPoint)
    );
    let text = base64::Engine::encode(&base64::engine::general_purpose::STANDARD, RISTRETTO_BASEPOINT_COMPRESSED.as_bytes());
    let c = PedersenCommitment::from_base64(&text).unwrap();
    assert_eq!(c.to_binary(), RISTRETTO_BASEPOINT_COMPRESSED.to_bytes().to_vec());
}

#[test]
fn serialization_round_trips() {
    let mut rng = OsRng;
    let factory = ExtendedPedersenCommitmentFactory::new_with_extension_degree(3).unwrap();
    for _ in 0..10 {
        let k_vec = vec![random_key(&mut rng), random_key(&mut rng), random_key(&mut rng)];
        let c = factory.commit_extended(&k_vec, &random_key(&mut rng)).unwrap();
        assert_eq!(PedersenCommitment::from_base64(&c.to_base64()), Ok(c));
        assert_eq!(PedersenCommitment::from_binary(&c.to_binary()), Ok(c));
        assert_eq!(c.to_base64().len(), 44);
    }
}

#[test]
fn ordering_is_total_and_consistent() {
    let factory = ExtendedPedersenCommitmentFactory::default();
    let k = RistrettoSecretKey::from_u64(3);
    let cs: Vec<PedersenCommitment> = (0..20).map(|v| factory.commit_value(&k, v)).collect();
    for a in &cs {
        for b in &cs {
            if a == b {
                assert_eq!(a.cmp(b), std::cmp::Ordering::Equal);
            } else {
                assert!((a < b) != (a > b));
                assert_eq!(a.cmp(b), b.cmp(a).reverse());
                assert_eq!(a < b, a.to_binary() < b.to_binary());
            }
        }
    }
}

#[test]
fn secret_key_arithmetic() {
    let a = RistrettoSecretKey::from_u64(40);
    let b = RistrettoSecretKey::from_u64(2);
    assert_eq!(a.add(&b).scalar, RistrettoSecretKey::from_u64(42).scalar);
    let mut wide = [0u8; 64];
    wide[0] = 7;
    wide[1] = 1;
    assert_eq!(RistrettoSecretKey::from_uniform_bytes(&wide).scalar, RistrettoSecretKey::from_u64(263).scalar);
    assert_eq!(a.clone().scalar, a.scalar);
    let pk = RistrettoPublicKey::from_secret_key(&RistrettoSecretKey::from_u64(1));
    assert_eq!(pk.point.compress(), RISTRETTO_BASEPOINT_COMPRESSED);
}

#[test]
fn cloned_factory_keeps_its_basis() {
    let factory = ExtendedPedersenCommitmentFactory::new_with_extension_degree(4).unwrap();
    let copy = factory.clone();
    assert_eq!(copy, factory);
    assert_eq!(copy.extension_degree(), 4);
    assert_eq!(copy.h_base_compressed(), factory.h_base_compressed());
    for i in 0..=4 {
        assert_eq!(copy.g_base_compressed(i), factory.g_base_compressed(i));
    }
    assert_ne!(copy, ExtendedPedersenCommitmentFactory::new_with_extension_degree(3).unwrap());
}
