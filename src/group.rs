//! The Ristretto group and its scalars, as the rest of the crate sees them.
//!
//! The group has prime order `group_order()`, and it is cyclic: every element is `x·B` for
//! exactly one `x < group_order()`, where `B` is the Ristretto basepoint. A point is modelled
//! by that `x` (its discrete logarithm, which nobody computes) and a scalar by its canonical
//! value; every group operation of curve25519-dalek then becomes arithmetic modulo the order.

use curve25519_dalek::ristretto::{CompressedRistretto, RistrettoPoint};
use curve25519_dalek::scalar::Scalar;
use curve25519_dalek::traits::{Identity, MultiscalarMul};
use vstd::prelude::*;

verus! {

/// curve25519-dalek's group element, opaque here.
#[verifier::external_type_specification]
#[verifier::external_body]
pub struct ExRistrettoPoint(RistrettoPoint);

/// curve25519-dalek's scalar, opaque here.
#[verifier::external_type_specification]
#[verifier::external_body]
pub struct ExScalar(Scalar);

/// The order of the Ristretto group, `2^252 + 27742317777372353535851937790883648493`.
pub open spec fn group_order() -> nat {
    7237005577332262213973186563042994240857116359379907606001950938285454250989nat
}

/// The discrete logarithm of a point with respect to the Ristretto basepoint.
pub uninterp spec fn point_log(p: RistrettoPoint) -> nat;

/// The canonical value of a scalar.
pub uninterp spec fn scalar_value(s: Scalar) -> nat;

/// The canonical 32-byte encoding of the group element `x·B`.
pub uninterp spec fn encoding_of(x: nat) -> Seq<u8>;

/// The discrete logarithm of the point that SHA-512 followed by the Ristretto one-way map
/// gives for the bytes `input`.
pub uninterp spec fn hashed_point_log(input: Seq<u8>) -> nat;

/// Little-endian value of a byte string.
pub open spec fn le_value(b: Seq<u8>) -> nat
    decreases b.len(),
{
    if b.len() == 0 {
        0
    } else {
        b[0] as nat + 256 * le_value(b.drop_first())
    }
}

/// `Σ a[i]·b[i]` over the common prefix of the two sequences.
pub open spec fn inner_product(a: Seq<nat>, b: Seq<nat>) -> nat
    decreases a.len(),
{
    if a.len() == 0 || b.len() == 0 {
        0
    } else {
        a[0] * b[0] + inner_product(a.drop_first(), b.drop_first())
    }
}

/// Values of a sequence of scalars.
pub open spec fn scalar_values(s: Seq<Scalar>) -> Seq<nat> {
    s.map_values(|x: Scalar| scalar_value(x))
}

/// Discrete logarithms of a sequence of points.
pub open spec fn point_logs(p: Seq<RistrettoPoint>) -> Seq<nat> {
    p.map_values(|x: RistrettoPoint| point_log(x))
}

/// Relies on `RISTRETTO_BASEPOINT_POINT`: the generator `B`, whose logarithm is one.
#[verifier::external_body]
pub(crate) fn basepoint() -> (r: RistrettoPoint)
    ensures
        point_log(r) == 1,
{
    curve25519_dalek::constants::RISTRETTO_BASEPOINT_POINT
}

/// Relies on `RistrettoPoint::identity`: the neutral element.
#[verifier::external_body]
pub(crate) fn identity_point() -> (r: RistrettoPoint)
    ensures
        point_log(r) == 0,
{
    RistrettoPoint::identity()
}

/// Relies on `RistrettoPoint + RistrettoPoint`: the group law.
#[verifier::external_body]
pub(crate) fn point_add(a: &RistrettoPoint, b: &RistrettoPoint) -> (r: RistrettoPoint)
    ensures
        point_log(r) == (point_log(*a) + point_log(*b)) % group_order(),
{
    a + b
}

/// Relies on `Scalar * RistrettoPoint`: scalar multiplication.
#[verifier::external_body]
pub(crate) fn point_mul(s: &Scalar, p: &RistrettoPoint) -> (r: RistrettoPoint)
    ensures
        point_log(r) == (scalar_value(*s) * point_log(*p)) % group_order(),
{
    s * p
}

/// Relies on `RistrettoPoint::multiscalar_mul`: `Σ s[i]·p[i]` in one pass, over sequences of
/// the same length (the underlying algorithms assert that they are).
#[verifier::external_body]
pub(crate) fn multiscalar_mul(s: &Vec<Scalar>, p: &Vec<RistrettoPoint>) -> (r: RistrettoPoint)
    requires
        s@.len() == p@.len(),
    ensures
        point_log(r) == inner_product(scalar_values(s@), point_logs(p@)) % group_order(),
{
    RistrettoPoint::multiscalar_mul(s.iter(), p.iter())
}

/// Relies on `RistrettoPoint == RistrettoPoint`, which compares in constant time.
#[verifier::external_body]
pub(crate) fn point_eq(a: &RistrettoPoint, b: &RistrettoPoint) -> (r: bool)
    ensures
        r == (point_log(*a) % group_order() == point_log(*b) % group_order()),
{
    a == b
}

/// Relies on `RistrettoPoint::compress`: the canonical encoding, which no other element shares.
#[verifier::external_body]
pub(crate) fn compress(p: &RistrettoPoint) -> (r: [u8; 32])
    ensures
        r@ == encoding_of(point_log(*p) % group_order()),
        forall|x: nat| x < group_order() && encoding_of(x) == r@ ==> x == point_log(*p) % group_order(),
{
    p.compress().to_bytes()
}

/// Relies on `CompressedRistretto::decompress`: it accepts exactly the canonical encodings.
#[verifier::external_body]
pub(crate) fn decompress(b: &[u8; 32]) -> (r: Option<RistrettoPoint>)
    ensures
        r.is_some() == (exists|x: nat| x < group_order() && encoding_of(x) == b@),
        r.is_some() ==> encoding_of(point_log(r.unwrap()) % group_order()) == b@,
        r.is_some() ==> forall|x: nat|
            x < group_order() && encoding_of(x) == b@ ==> x == point_log(r.unwrap()) % group_order(),
{
    CompressedRistretto(*b).decompress()
}

/// Relies on `RistrettoPoint::hash_from_bytes` with SHA-512: a point that depends on the
/// input alone.
#[verifier::external_body]
pub(crate) fn hash_to_point(input: &[u8; 32]) -> (r: RistrettoPoint)
    ensures
        point_log(r) == hashed_point_log(input@) % group_order(),
{
    RistrettoPoint::hash_from_bytes::<sha2::Sha512>(input)
}

/// Relies on `Scalar::from(u64)`: the scalar of that value.
#[verifier::external_body]
pub(crate) fn scalar_from_u64(v: u64) -> (r: Scalar)
    ensures
        scalar_value(r) == v as nat,
{
    Scalar::from(v)
}

/// Relies on `Scalar + Scalar`: addition modulo the group order.
#[verifier::external_body]
pub(crate) fn scalar_add(a: &Scalar, b: &Scalar) -> (r: Scalar)
    ensures
        scalar_value(r) == (scalar_value(*a) + scalar_value(*b)) % group_order(),
{
    a + b
}

/// Relies on `Scalar::from_bytes_mod_order_wide`: a 512-bit little-endian integer, reduced.
#[verifier::external_body]
pub(crate) fn scalar_from_wide(b: &[u8; 64]) -> (r: Scalar)
    ensures
        scalar_value(r) == le_value(b@) % group_order(),
{
    Scalar::from_bytes_mod_order_wide(b)
}

} // verus!
