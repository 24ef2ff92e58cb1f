use rand_core::{OsRng, RngCore};
use tari_crypto::dhke::DiffieHellmanSharedSecret;
use tari_crypto::keys::{RistrettoPublicKey, RistrettoSecretKey};

fn random_key(rng: &mut OsRng) -> RistrettoSecretKey {
    let mut bytes = [0u8; 64];
    rng.fill_bytes(&mut bytes);
    RistrettoSecretKey::from_uniform_bytes(&bytes)
}

#[test]
fn test_dhke() {
    // Generate two key pairs
    let mut rng = OsRng;

    let sk1 = random_key(&mut rng);
    let pk1 = RistrettoPublicKey::from_secret_key(&sk1);

    let sk2 = random_key(&mut rng);
    let pk2 = RistrettoPublicKey::from_secret_key(&sk2);

    // Assert that both sides of a key exchange match
    let left = DiffieHellmanSharedSecret::new(&sk1, &pk2);
    let right = DiffieHellmanSharedSecret::new(&sk2, &pk1);

    assert_eq!(left.as_bytes(), right.as_bytes());
}

#[test]
fn dhke_with_unit_key_is_peer_encoding() {
    let one = RistrettoSecretKey::from_u64(1);
    let pk = RistrettoPublicKey::from_secret_key(&one);
    let secret = DiffieHellmanSharedSecret::new(&one, &pk);
    assert_eq!(
        secret.as_bytes(),
        curve25519_dalek::constants::RISTRETTO_BASEPOINT_COMPRESSED.as_bytes()
    );
}

#[test]
fn dhke_small_keys_agree_with_product() {
    let a = RistrettoSecretKey::from_u64(6);
    let b = RistrettoSecretKey::from_u64(7);
    let c = RistrettoSecretKey::from_u64(42);
    let one = RistrettoSecretKey::from_u64(1);
    let pk_b = RistrettoPublicKey::from_secret_key(&b);
    let pk_one = RistrettoPublicKey::from_secret_key(&one);
    let left = DiffieHellmanSharedSecret::new(&a, &pk_b);
    let right = DiffieHellmanSharedSecret::new(&c, &pk_one);
    assert_eq!(left.as_bytes(), right.as_bytes());
    let other = DiffieHellmanSharedSecret::new(&a, &pk_one);
    assert_ne!(left.as_bytes(), other.as_bytes());
}
