//! Diffie-Hellman key exchange producing a shared secret.
//!
//! The result of the exchange is a group element, but it is treated as a secret: the only view
//! into it is its encoding as bytes, meant for further key derivation, and those bytes are wiped
//! when the value is dropped. Copies taken of the bytes are not wiped.

use crate::group::{compress, encoding_of, group_order, point_log, point_mul, scalar_value};
use crate::keys::{RistrettoPublicKey, RistrettoSecretKey};
use vstd::arithmetic::div_mod::{lemma_mod_twice, lemma_mul_mod_noop};
use vstd::prelude::*;

verus! {

/// The encoding of `k·P` for a secret key of value `k` and a public key of logarithm `p`.
pub open spec fn shared_secret_encoding(k: nat, p: nat) -> Seq<u8> {
    encoding_of((k * p) % group_order())
}

/// Relies on zeroize's `Zeroize` for byte arrays: every byte is overwritten with zero.
#[verifier::external_body]
fn wipe(b: &mut [u8; 32])
    ensures
        final(b)@ == Seq::new(32, |i: int| 0u8),
    opens_invariants none
    no_unwind
{
    zeroize::Zeroize::zeroize(b)
}

/// The result of a Diffie-Hellman key exchange.
pub struct DiffieHellmanSharedSecret {
    bytes: [u8; 32],
}

impl View for DiffieHellmanSharedSecret {
    type V = Seq<u8>;

    closed spec fn view(&self) -> Seq<u8> {
        self.bytes@
    }
}

impl DiffieHellmanSharedSecret {
    /// Performs the exchange: `sk·pk`.
    pub fn new(sk: &RistrettoSecretKey, pk: &RistrettoPublicKey) -> (r: Self)
        ensures
            r@ == shared_secret_encoding(sk@, pk@),
    {
        let p = point_mul(&sk.scalar, &pk.point);
        proof {
            let n = group_order() as int;
            lemma_mul_mod_noop(scalar_value(sk.scalar) as int, point_log(pk.point) as int, n);
            lemma_mod_twice(
                scalar_value(sk.scalar) as int * point_log(pk.point) as int, n);
        }
        DiffieHellmanSharedSecret { bytes: compress(&p) }
    }

    /// The shared secret as bytes.
    pub fn as_bytes(&self) -> (r: &[u8])
        ensures
            r@ == self@,
    {
        self.bytes.as_slice()
    }
}

impl Drop for DiffieHellmanSharedSecret {
    fn drop(&mut self)
        opens_invariants none
        no_unwind
    {
        wipe(&mut self.bytes);
    }
}

/// Both sides of an exchange derive the same secret: `a·(b·G) == b·(a·G)`.
pub proof fn lemma_shared_secret_symmetric(
    sk_a: RistrettoSecretKey,
    pk_a: RistrettoPublicKey,
    sk_b: RistrettoSecretKey,
    pk_b: RistrettoPublicKey,
)
    requires
        pk_a@ == sk_a@,
        pk_b@ == sk_b@,
    ensures
        shared_secret_encoding(sk_a@, pk_b@) == shared_secret_encoding(sk_b@, pk_a@),
{
    assert(sk_a@ * sk_b@ == sk_b@ * sk_a@) by (nonlinear_arith);
}

} // verus!
