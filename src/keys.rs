//! Secret keys (scalars) and public keys (points) of the Ristretto group.

use crate::group::{basepoint, group_order, le_value, point_log, point_mul, scalar_add, scalar_from_u64, scalar_from_wide, scalar_value};
use curve25519_dalek::ristretto::RistrettoPoint;
use curve25519_dalek::scalar::Scalar;
use vstd::prelude::*;

verus! {

/// A secret key: a scalar modulo the group order.
pub struct RistrettoSecretKey {
    pub scalar: Scalar,
}

/// A public key: a group element.
pub struct RistrettoPublicKey {
    pub point: RistrettoPoint,
}

impl View for RistrettoSecretKey {
    type V = nat;

    open spec fn view(&self) -> nat {
        scalar_value(self.scalar) % group_order()
    }
}

impl View for RistrettoPublicKey {
    type V = nat;

    open spec fn view(&self) -> nat {
        point_log(self.point) % group_order()
    }
}

impl RistrettoSecretKey {
    /// The scalar with the value of `v`.
    pub fn from_u64(v: u64) -> (r: Self)
        ensures
            r@ == v as nat,
    {
        let scalar = scalar_from_u64(v);
        assert(v as nat % group_order() == v as nat) by {
            vstd::arithmetic::div_mod::lemma_small_mod(v as nat, group_order());
        }
        RistrettoSecretKey { scalar }
    }

    /// The zero scalar.
    pub fn zero() -> (r: Self)
        ensures
            r@ == 0,
    {
        Self::from_u64(0)
    }

    /// The scalar whose value is the 64 bytes read as a little-endian integer, reduced modulo
    /// the group order. From 64 uniformly random bytes this draws a uniformly random key.
    pub fn from_uniform_bytes(b: &[u8; 64]) -> (r: Self)
        ensures
            r@ == le_value(b@) % group_order(),
    {
        let scalar = scalar_from_wide(b);
        proof {
            vstd::arithmetic::div_mod::lemma_mod_twice(le_value(b@) as int, group_order() as int);
        }
        RistrettoSecretKey { scalar }
    }

    /// The sum of two keys modulo the group order.
    pub fn add(&self, other: &Self) -> (r: Self)
        ensures
            r@ == (self@ + other@) % group_order(),
    {
        let scalar = scalar_add(&self.scalar, &other.scalar);
        proof {
            let n = group_order() as int;
            let a = scalar_value(self.scalar) as int;
            let b = scalar_value(other.scalar) as int;
            vstd::arithmetic::div_mod::lemma_mod_twice(a + b, n);
            vstd::arithmetic::div_mod::lemma_add_mod_noop(a, b, n);
        }
        RistrettoSecretKey { scalar }
    }
}

impl Clone for RistrettoSecretKey {
    fn clone(&self) -> (r: Self)
        ensures
            r@ == self@,
    {
        RistrettoSecretKey { scalar: self.scalar }
    }
}

/// Relies on zeroize's `Zeroize` for `Scalar`: its bytes are overwritten with zero.
#[verifier::external_body]
fn wipe_scalar(s: &mut Scalar)
    ensures
        scalar_value(*final(s)) == 0,
    opens_invariants none
    no_unwind
{
    zeroize::Zeroize::zeroize(s)
}

impl Drop for RistrettoSecretKey {
    /// Secret keys are wiped when they go out of scope.
    fn drop(&mut self)
        opens_invariants none
        no_unwind
    {
        wipe_scalar(&mut self.scalar);
    }
}

impl RistrettoPublicKey {
    /// The public key `k·G` of a secret key `k`, `G` being the basepoint.
    pub fn from_secret_key(k: &RistrettoSecretKey) -> (r: Self)
        ensures
            r@ == k@,
    {
        let point = point_mul(&k.scalar, &basepoint());
        proof {
            vstd::arithmetic::div_mod::lemma_mod_twice(scalar_value(k.scalar) as int, group_order() as int);
        }
        RistrettoPublicKey { point }
    }
}

} // verus!
