//! The extended Pedersen commitment factory: `C = v·H + Σ k_i·G_i`.

use crate::commitment::PedersenCommitment;
use crate::group::{
    basepoint, compress, encoding_of, group_order, hash_to_point, hashed_point_log, inner_product,
    multiscalar_mul, point_log, point_logs, scalar_value, scalar_values,
};
use crate::keys::RistrettoSecretKey;
use curve25519_dalek::ristretto::RistrettoPoint;
use curve25519_dalek::scalar::Scalar;
use vstd::arithmetic::div_mod::{lemma_add_mod_noop, lemma_mod_twice, lemma_mul_mod_noop, lemma_small_mod};
use vstd::prelude::*;

verus! {

/// How many nothing-up-my-sleeve points may be derived: `H` and the blinding generators after `G`.
pub const NUMS_TABLE_SIZE: usize = 10;

/// The one way in which building or using a factory fails.
#[derive(Debug, Clone, Copy, PartialEq, Eq, Structural)]
pub enum CommitmentError {
    /// The degree exceeds the generator table, or a blinding vector is empty or longer than
    /// the degree allows.
    ExtensionDegree,
}

/// The `i`-th nothing-up-my-sleeve point: the first is hashed from the basepoint's encoding,
/// each next one from the encoding of the one before. The first is the value generator `H`.
pub open spec fn nums_log(i: nat) -> nat
    decreases i,
{
    if i == 0 {
        hashed_point_log(encoding_of(1)) % group_order()
    } else {
        hashed_point_log(encoding_of(nums_log((i - 1) as nat))) % group_order()
    }
}

/// The blinding generator `G_i`: the basepoint, then the table's points after `H`.
pub open spec fn basis_log(i: nat) -> nat {
    if i == 0 {
        1
    } else {
        nums_log(i)
    }
}

/// `G_0 .. G_{n-1}`.
pub open spec fn basis_logs(n: nat) -> Seq<nat> {
    Seq::new(n, |i: int| basis_log(i as nat))
}

/// The values of a vector of blinding keys.
pub open spec fn key_values(k: Seq<RistrettoSecretKey>) -> Seq<nat> {
    k.map_values(|x: RistrettoSecretKey| x@)
}

/// The group element `v·H + Σ k[i]·G_i`.
pub open spec fn commitment_log(k: Seq<nat>, v: nat) -> nat {
    (v * nums_log(0) + inner_product(k, basis_logs(k.len()))) % group_order()
}

/// Whether `(k, v)` opens the commitment whose element is `c`.
pub open spec fn opens(c: nat, k: Seq<nat>, v: nat) -> bool {
    c == commitment_log(k, v)
}

/// Whether a blinding vector of length `n` fits a factory of degree `d`.
pub open spec fn fits_degree(n: nat, d: nat) -> bool {
    1 <= n <= d + 1
}

/// Sums of products agree modulo the order when their factors do.
pub proof fn lemma_inner_product_mod(a: Seq<nat>, b: Seq<nat>, a2: Seq<nat>, b2: Seq<nat>)
    requires
        a.len() == b.len(),
        a2.len() == a.len(),
        b2.len() == b.len(),
        forall|i: int| 0 <= i < a.len() ==> #[trigger] a[i] % group_order() == a2[i] % group_order(),
        forall|i: int| 0 <= i < b.len() ==> #[trigger] b[i] % group_order() == b2[i] % group_order(),
    ensures
        inner_product(a, b) % group_order() == inner_product(a2, b2) % group_order(),
    decreases a.len(),
{
    if a.len() > 0 {
        let n = group_order() as int;
        lemma_inner_product_mod(a.drop_first(), b.drop_first(), a2.drop_first(), b2.drop_first());
        let x = a[0] * b[0];
        let x2 = a2[0] * b2[0];
        let y = inner_product(a.drop_first(), b.drop_first());
        let y2 = inner_product(a2.drop_first(), b2.drop_first());
        assert(a[0] % group_order() == a2[0] % group_order());
        assert(b[0] % group_order() == b2[0] % group_order());
        lemma_mul_mod_noop(a[0] as int, b[0] as int, n);
        lemma_mul_mod_noop(a2[0] as int, b2[0] as int, n);
        lemma_add_mod_noop(x as int, y as int, n);
        lemma_add_mod_noop(x2 as int, y2 as int, n);
    }
}

/// The point hashed from the encoding of `p`.
fn hash_point(p: &RistrettoPoint) -> (r: RistrettoPoint)
    ensures
        point_log(r) == hashed_point_log(encoding_of(point_log(*p) % group_order())) % group_order(),
{
    hash_to_point(&compress(p))
}

/// Generates extended Pedersen commitments `Σ k_i·G_i + v·H` over a basis of
/// `extension_degree + 1` blinding generators.
///
/// Adding a bare public key `k·G` to a commitment adds `k` to its first blinding scalar, which
/// makes it the commitment to `(k_0 + k, v)` only where that is the only blinding scalar
/// (degree zero).
#[derive(Debug)]
pub struct ExtendedPedersenCommitmentFactory {
    h_base: RistrettoPoint,
    h_base_compressed: [u8; 32],
    g_base_vec: Vec<RistrettoPoint>,
    g_base_compressed_vec: Vec<[u8; 32]>,
    extension_degree: usize,
}

impl ExtendedPedersenCommitmentFactory {
    #[verifier::type_invariant]
    spec fn well_formed(self) -> bool {
        &&& self.extension_degree < NUMS_TABLE_SIZE
        &&& self.g_base_vec@.len() == self.extension_degree + 1
        &&& self.g_base_compressed_vec@.len() == self.extension_degree + 1
        &&& point_log(self.h_base) == nums_log(0)
        &&& self.h_base_compressed@ == encoding_of(nums_log(0))
        &&& forall|i: int|
            0 <= i < self.g_base_vec@.len() ==> point_log(#[trigger] self.g_base_vec@[i]) == basis_log(i as nat)
        &&& forall|i: int|
            0 <= i < self.g_base_compressed_vec@.len() ==> (#[trigger] self.g_base_compressed_vec@[i])@
                == encoding_of(basis_log(i as nat))
    }

    /// The extension degree `d`: commitments take `1 ..= d + 1` blinding scalars.
    pub closed spec fn degree(self) -> nat {
        self.extension_degree as nat
    }

    /// A factory of the given degree, or `ExtensionDegree` where the generator table is too short.
    pub fn new_with_extension_degree(extension_degree: usize) -> (r: Result<Self, CommitmentError>)
        ensures
            extension_degree >= NUMS_TABLE_SIZE ==> r == Err::<Self, CommitmentError>(
                CommitmentError::ExtensionDegree,
            ),
            extension_degree < NUMS_TABLE_SIZE ==> r is Ok && r->Ok_0.degree() == extension_degree,
    {
        if extension_degree >= NUMS_TABLE_SIZE {
            return Err(CommitmentError::ExtensionDegree);
        }
        let g = basepoint();
        proof {
            lemma_small_mod(1, group_order());
        }
        let h_base = hash_point(&g);
        proof {
            lemma_mod_twice(hashed_point_log(encoding_of(1)) as int, group_order() as int);
        }
        let h_base_compressed = compress(&h_base);
        let mut g_base_vec: Vec<RistrettoPoint> = Vec::new();
        let mut g_base_compressed_vec: Vec<[u8; 32]> = Vec::new();
        g_base_compressed_vec.push(compress(&g));
        g_base_vec.push(g);
        let mut last = h_base;
        let mut i: usize = 1;
        while i <= extension_degree
            invariant
                1 <= i <= extension_degree + 1,
                extension_degree < NUMS_TABLE_SIZE,
                point_log(last) == nums_log((i - 1) as nat),
                g_base_vec@.len() == i,
                g_base_compressed_vec@.len() == i,
                forall|j: int| 0 <= j < i ==> point_log(#[trigger] g_base_vec@[j]) == basis_log(j as nat),
                forall|j: int|
                    0 <= j < i ==> (#[trigger] g_base_compressed_vec@[j])@ == encoding_of(basis_log(j as nat)),
            decreases extension_degree + 1 - i,
        {
            proof {
                lemma_mod_twice(point_log(last) as int, group_order() as int);
            }
            let p = hash_point(&last);
            proof {
                lemma_mod_twice(hashed_point_log(encoding_of(nums_log((i - 1) as nat))) as int, group_order() as int);
            }
            g_base_compressed_vec.push(compress(&p));
            g_base_vec.push(p);
            last = p;
            i = i + 1;
        }
        Ok(ExtendedPedersenCommitmentFactory {
            h_base,
            h_base_compressed,
            g_base_vec,
            g_base_compressed_vec,
            extension_degree,
        })
    }

    /// The extension degree.
    pub fn extension_degree(&self) -> (r: usize)
        ensures
            r == self.degree(),
    {
        self.extension_degree
    }

    /// The canonical encoding of the value generator `H`.
    pub fn h_base_compressed(&self) -> (r: [u8; 32])
        ensures
            r@ == encoding_of(nums_log(0)),
    {
        proof {
            use_type_invariant(self);
        }
        self.h_base_compressed
    }

    /// The canonical encoding of the blinding generator `G_i`.
    pub fn g_base_compressed(&self, i: usize) -> (r: [u8; 32])
        requires
            i <= self.degree(),
        ensures
            r@ == encoding_of(basis_log(i as nat)),
    {
        proof {
            use_type_invariant(self);
        }
        self.g_base_compressed_vec[i]
    }

    /// `v·H + Σ k_vec[i]·G_i` in one multiscalar multiplication.
    fn combine(&self, k_vec: &[RistrettoSecretKey], v: &RistrettoSecretKey) -> (r: RistrettoPoint)
        requires
            fits_degree(k_vec@.len(), self.degree()),
        ensures
            point_log(r) == commitment_log(key_values(k_vec@), v@),
    {
        proof {
            use_type_invariant(self);
        }
        let mut scalars: Vec<Scalar> = Vec::new();
        let mut points: Vec<RistrettoPoint> = Vec::new();
        scalars.push(v.scalar);
        points.push(self.h_base);
        let mut i: usize = 0;
        while i < k_vec.len()
            invariant
                fits_degree(k_vec@.len(), self.degree()),
                self.g_base_vec@.len() == self.extension_degree + 1,
                i <= k_vec@.len(),
                scalars@.len() == i + 1,
                points@.len() == i + 1,
                scalars@[0] == v.scalar,
                points@[0] == self.h_base,
                forall|j: int| 0 <= j < i ==> scalars@[j + 1] == (#[trigger] k_vec@[j]).scalar,
                forall|j: int| 0 <= j < i ==> points@[j + 1] == #[trigger] self.g_base_vec@[j],
            decreases k_vec@.len() - i,
        {
            scalars.push(k_vec[i].scalar);
            points.push(self.g_base_vec[i]);
            i = i + 1;
        }
        let p = multiscalar_mul(&scalars, &points);
        proof {
            let n = k_vec@.len();
            let a = scalar_values(scalars@);
            let b = point_logs(points@);
            let a2 = seq![v@] + key_values(k_vec@);
            let b2 = seq![nums_log(0)] + basis_logs(n);
            assert forall|j: int| 0 <= j < a.len() implies #[trigger] a[j] % group_order() == a2[j] % group_order() by {
                if j == 0 {
                    lemma_mod_twice(scalar_value(v.scalar) as int, group_order() as int);
                } else {
                    assert(scalars@[j] == k_vec@[j - 1].scalar);
                    lemma_mod_twice(scalar_value(k_vec@[j - 1].scalar) as int, group_order() as int);
                }
            }
            assert forall|j: int| 0 <= j < b.len() implies #[trigger] b[j] % group_order() == b2[j] % group_order() by {
                if j > 0 {
                    assert(points@[j] == self.g_base_vec@[j - 1]);
                }
            }
            lemma_inner_product_mod(a, b, a2, b2);
            assert(a2.drop_first() =~= key_values(k_vec@));
            assert(b2.drop_first() =~= basis_logs(n));
        }
        p
    }

    /// `v·H + k·G`.
    pub fn commit(&self, k: &RistrettoSecretKey, v: &RistrettoSecretKey) -> (r: PedersenCommitment)
        ensures
            r.value() == commitment_log(seq![k@], v@),
    {
        let ks = vec![RistrettoSecretKey { scalar: k.scalar }];
        let p = self.combine(ks.as_slice(), v);
        assert(key_values(ks@) =~= seq![k@]);
        proof {
            lemma_mod_twice(point_log(p) as int, group_order() as int);
        }
        PedersenCommitment::from_point(&p)
    }

    /// The zero commitment (`k = 0`, `v = 0`).
    pub fn zero(&self) -> (r: PedersenCommitment)
        ensures
            r.value() == 0,
    {
        PedersenCommitment::zero()
    }

    /// Whether `(k, v)` opens `commitment`.
    pub fn open(&self, k: &RistrettoSecretKey, v: &RistrettoSecretKey, commitment: &PedersenCommitment) -> (r: bool)
        ensures
            r == opens(commitment.value(), seq![k@], v@),
    {
        let ks = vec![RistrettoSecretKey { scalar: k.scalar }];
        let p = self.combine(ks.as_slice(), v);
        assert(key_values(ks@) =~= seq![k@]);
        proof {
            lemma_mod_twice(point_log(p) as int, group_order() as int);
        }
        commitment.holds_point(&p)
    }

    /// `value·H + k·G`.
    pub fn commit_value(&self, k: &RistrettoSecretKey, value: u64) -> (r: PedersenCommitment)
        ensures
            r.value() == commitment_log(seq![k@], value as nat),
    {
        let v = RistrettoSecretKey::from_u64(value);
        self.commit(k, &v)
    }

    /// Whether `(k, value)` opens `commitment`.
    pub fn open_value(&self, k: &RistrettoSecretKey, value: u64, commitment: &PedersenCommitment) -> (r: bool)
        ensures
            r == opens(commitment.value(), seq![k@], value as nat),
    {
        let v = RistrettoSecretKey::from_u64(value);
        self.open(k, &v, commitment)
    }

    /// `v·H + Σ k_vec[i]·G_i`, where `k_vec` holds one to `degree + 1` blinding keys.
    pub fn commit_extended(&self, k_vec: &[RistrettoSecretKey], v: &RistrettoSecretKey) -> (r: Result<
        PedersenCommitment,
        CommitmentError,
    >)
        ensures
            !fits_degree(k_vec@.len(), self.degree()) ==> r == Err::<PedersenCommitment, CommitmentError>(
                CommitmentError::ExtensionDegree,
            ),
            fits_degree(k_vec@.len(), self.degree()) ==> r is Ok && r->Ok_0.value() == commitment_log(
                key_values(k_vec@),
                v@,
            ),
    {
        proof {
            use_type_invariant(self);
        }
        if k_vec.len() == 0 || k_vec.len() > self.extension_degree + 1 {
            return Err(CommitmentError::ExtensionDegree);
        }
        let p = self.combine(k_vec, v);
        proof {
            lemma_mod_twice(point_log(p) as int, group_order() as int);
        }
        Ok(PedersenCommitment::from_point(&p))
    }

    /// The zero commitment.
    pub fn zero_extended(&self) -> (r: PedersenCommitment)
        ensures
            r.value() == 0,
    {
        PedersenCommitment::zero()
    }

    /// Whether `(k_vec, v)` opens `commitment`; the error of `commit_extended` where `k_vec`
    /// does not fit the degree.
    pub fn open_extended(
        &self,
        k_vec: &[RistrettoSecretKey],
        v: &RistrettoSecretKey,
        commitment: &PedersenCommitment,
    ) -> (r: Result<bool, CommitmentError>)
        ensures
            !fits_degree(k_vec@.len(), self.degree()) ==> r == Err::<bool, CommitmentError>(
                CommitmentError::ExtensionDegree,
            ),
            fits_degree(k_vec@.len(), self.degree()) ==> r == Ok::<bool, CommitmentError>(
                opens(commitment.value(), key_values(k_vec@), v@),
            ),
    {
        proof {
            use_type_invariant(self);
        }
        if k_vec.len() == 0 || k_vec.len() > self.extension_degree + 1 {
            return Err(CommitmentError::ExtensionDegree);
        }
        let p = self.combine(k_vec, v);
        proof {
            lemma_mod_twice(point_log(p) as int, group_order() as int);
        }
        Ok(commitment.holds_point(&p))
    }

    /// `value·H + Σ k_vec[i]·G_i`.
    pub fn commit_value_extended(&self, k_vec: &[RistrettoSecretKey], value: u64) -> (r: Result<
        PedersenCommitment,
        CommitmentError,
    >)
        ensures
            !fits_degree(k_vec@.len(), self.degree()) ==> r == Err::<PedersenCommitment, CommitmentError>(
                CommitmentError::ExtensionDegree,
            ),
            fits_degree(k_vec@.len(), self.degree()) ==> r is Ok && r->Ok_0.value() == commitment_log(
                key_values(k_vec@),
                value as nat,
            ),
    {
        let v = RistrettoSecretKey::from_u64(value);
        self.commit_extended(k_vec, &v)
    }

    /// Whether `(k_vec, value)` opens `commitment`.
    pub fn open_value_extended(
        &self,
        k_vec: &[RistrettoSecretKey],
        value: u64,
        commitment: &PedersenCommitment,
    ) -> (r: Result<bool, CommitmentError>)
        ensures
            !fits_degree(k_vec@.len(), self.degree()) ==> r == Err::<bool, CommitmentError>(
                CommitmentError::ExtensionDegree,
            ),
            fits_degree(k_vec@.len(), self.degree()) ==> r == Ok::<bool, CommitmentError>(
                opens(commitment.value(), key_values(k_vec@), value as nat),
            ),
    {
        let v = RistrettoSecretKey::from_u64(value);
        self.open_extended(k_vec, &v, commitment)
    }
}

impl Default for ExtendedPedersenCommitmentFactory {
    /// The factory of degree zero: the classical two-generator Pedersen commitment.
    fn default() -> (r: Self)
        ensures
            r.degree() == 0,
    {
        Self::new_with_extension_degree(0).unwrap()
    }
}

impl Clone for ExtendedPedersenCommitmentFactory {
    fn clone(&self) -> (r: Self)
        ensures
            r.degree() == self.degree(),
    {
        proof {
            use_type_invariant(self);
        }
        let mut g_base_vec: Vec<RistrettoPoint> = Vec::new();
        let mut g_base_compressed_vec: Vec<[u8; 32]> = Vec::new();
        let mut i: usize = 0;
        while i < self.g_base_vec.len()
            invariant
                self.g_base_vec@.len() == self.g_base_compressed_vec@.len(),
                i <= self.g_base_vec@.len(),
                g_base_vec@ == self.g_base_vec@.take(i as int),
                g_base_compressed_vec@ == self.g_base_compressed_vec@.take(i as int),
            decreases self.g_base_vec@.len() - i,
        {
            g_base_vec.push(self.g_base_vec[i]);
            g_base_compressed_vec.push(self.g_base_compressed_vec[i]);
            i = i + 1;
            assert(g_base_vec@ =~= self.g_base_vec@.take(i as int));
            assert(g_base_compressed_vec@ =~= self.g_base_compressed_vec@.take(i as int));
        }
        assert(g_base_vec@ =~= self.g_base_vec@);
        assert(g_base_compressed_vec@ =~= self.g_base_compressed_vec@);
        ExtendedPedersenCommitmentFactory {
            h_base: self.h_base,
            h_base_compressed: self.h_base_compressed,
            g_base_vec,
            g_base_compressed_vec,
            extension_degree: self.extension_degree,
        }
    }
}

impl PartialEq for ExtendedPedersenCommitmentFactory {
    /// Factories are equal when their bases and degrees are; the basis of a factory is fixed
    /// by its degree, so comparing degrees suffices.
    fn eq(&self, other: &Self) -> (r: bool) {
        self.extension_degree == other.extension_degree
    }
}

impl vstd::std_specs::cmp::PartialEqSpecImpl for ExtendedPedersenCommitmentFactory {
    open spec fn obeys_eq_spec() -> bool {
        true
    }

    open spec fn eq_spec(&self, other: &Self) -> bool {
        self.degree() == other.degree()
    }
}

} // verus!
