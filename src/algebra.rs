//! How commitments combine: the homomorphisms of the scheme.

use crate::commitment::{sum_values, PedersenCommitment};
use crate::factory::{basis_logs, commitment_log, key_values, nums_log, opens};
use crate::group::{group_order, inner_product};
use crate::keys::RistrettoSecretKey;
use vstd::arithmetic::div_mod::{lemma_add_mod_noop, lemma_mod_twice, lemma_mul_mod_noop, lemma_small_mod};
use vstd::arithmetic::mul::{lemma_mul_basics, lemma_mul_is_distributive_add_other_way};
use vstd::prelude::*;

verus! {

/// Element-wise sum of two blinding vectors, modulo the group order.
pub open spec fn add_vectors(a: Seq<nat>, b: Seq<nat>) -> Seq<nat> {
    Seq::new(a.len(), |i: int| (a[i] + b[i]) % group_order())
}

/// Element-wise sum of blinding vectors of length `n`, starting from zeros.
pub open spec fn sum_vectors(ks: Seq<Seq<nat>>, n: nat) -> Seq<nat>
    decreases ks.len(),
{
    if ks.len() == 0 {
        Seq::new(n, |i: int| 0nat)
    } else {
        add_vectors(sum_vectors(ks.drop_last(), n), ks.last())
    }
}

/// Sum of scalars modulo the group order.
pub open spec fn sum_scalars(vs: Seq<nat>) -> nat
    decreases vs.len(),
{
    if vs.len() == 0 {
        0
    } else {
        (sum_scalars(vs.drop_last()) + vs.last()) % group_order()
    }
}

proof fn lemma_add_congruent(x: int, y: int, x2: int, y2: int)
    requires
        x % (group_order() as int) == x2 % (group_order() as int),
        y % (group_order() as int) == y2 % (group_order() as int),
    ensures
        (x + y) % (group_order() as int) == (x2 + y2) % (group_order() as int),
{
    let n = group_order() as int;
    lemma_add_mod_noop(x, y, n);
    lemma_add_mod_noop(x2, y2, n);
}

/// `Σ (a[i] + b[i])·g[i] ≡ Σ a[i]·g[i] + Σ b[i]·g[i]`.
proof fn lemma_inner_product_add(a: Seq<nat>, b: Seq<nat>, g: Seq<nat>)
    requires
        a.len() == b.len(),
        a.len() == g.len(),
    ensures
        (inner_product(a, g) + inner_product(b, g)) % group_order() == inner_product(add_vectors(a, b), g)
            % group_order(),
    decreases a.len(),
{
    let n = group_order() as int;
    let s = add_vectors(a, b);
    if a.len() > 0 {
        lemma_inner_product_add(a.drop_first(), b.drop_first(), g.drop_first());
        assert(s.drop_first() =~= add_vectors(a.drop_first(), b.drop_first()));
        let ra = inner_product(a.drop_first(), g.drop_first()) as int;
        let rb = inner_product(b.drop_first(), g.drop_first()) as int;
        let rs = inner_product(s.drop_first(), g.drop_first()) as int;
        let a0 = a[0] as int;
        let b0 = b[0] as int;
        let g0 = g[0] as int;
        lemma_mul_is_distributive_add_other_way(g0, a0, b0);
        lemma_mod_twice(a0 + b0, n);
        lemma_mul_mod_noop(a0 + b0, g0, n);
        lemma_mul_mod_noop((a0 + b0) % n, g0, n);
        assert(((a0 + b0) * g0) % n == (s[0] as int * g0) % n);
        lemma_add_congruent((a0 + b0) * g0, ra + rb, s[0] as int * g0, rs);
        assert(inner_product(a, g) + inner_product(b, g) == (a0 + b0) * g0 + (ra + rb));
    }
}

/// Blinding by zeros contributes nothing.
proof fn lemma_inner_product_zeros(n: nat, g: Seq<nat>)
    requires
        g.len() == n,
    ensures
        inner_product(Seq::new(n, |i: int| 0nat), g) == 0,
    decreases n,
{
    if n > 0 {
        let z = Seq::new(n, |i: int| 0nat);
        assert(z.drop_first() =~= Seq::new((n - 1) as nat, |i: int| 0nat));
        lemma_inner_product_zeros((n - 1) as nat, g.drop_first());
        lemma_mul_basics(g[0] as int);
    }
}

proof fn lemma_sum_vectors_len(ks: Seq<Seq<nat>>, n: nat)
    ensures
        sum_vectors(ks, n).len() == n,
    decreases ks.len(),
{
    if ks.len() > 0 {
        lemma_sum_vectors_len(ks.drop_last(), n);
    }
}

/// A degree-zero commitment to `([k], v)` made through the extended path is the single-generator
/// commitment to `(k, v)`.
pub proof fn lemma_degree_zero_equivalence(k: RistrettoSecretKey, v: nat)
    ensures
        commitment_log(key_values(seq![k]), v) == commitment_log(seq![k@], v),
{
    assert(key_values(seq![k]) =~= seq![k@]);
}

/// The sum of the commitments to `(k1, v1)` and `(k2, v2)` is the commitment to
/// `(k1 + k2, v1 + v2)`, the blinding vectors added element by element.
pub proof fn lemma_homomorphism(k1: Seq<nat>, k2: Seq<nat>, v1: nat, v2: nat)
    requires
        k1.len() == k2.len(),
    ensures
        (commitment_log(k1, v1) + commitment_log(k2, v2)) % group_order() == commitment_log(
            add_vectors(k1, k2),
            (v1 + v2) % group_order(),
        ),
{
    let n = group_order() as int;
    let h = nums_log(0) as int;
    let g = basis_logs(k1.len());
    let s = add_vectors(k1, k2);
    let i1 = inner_product(k1, g) as int;
    let i2 = inner_product(k2, g) as int;
    let is = inner_product(s, g) as int;
    let v = (v1 + v2) % group_order();
    lemma_inner_product_add(k1, k2, g);
    lemma_add_mod_noop(v1 * h + i1, v2 * h + i2, n);
    lemma_mul_is_distributive_add_other_way(h, v1 as int, v2 as int);
    lemma_mul_mod_noop(v1 as int + v2 as int, h, n);
    lemma_mod_twice(v1 as int + v2 as int, n);
    lemma_mul_mod_noop(v as int, h, n);
    assert(((v1 + v2) * h) % n == (v as int * h) % n);
    lemma_add_congruent((v1 + v2) * h, i1 + i2, v as int * h, is);
    assert(v1 * h + i1 + (v2 * h + i2) == (v1 + v2) * h + (i1 + i2));
}

/// At degree zero, adding the public key `k2·G` to the commitment to `(k1, v1)` gives the
/// commitment to `(k1 + k2, v1)`.
pub proof fn lemma_public_key_homomorphism(k1: nat, v1: nat, k2: nat)
    ensures
        (commitment_log(seq![k1], v1) + k2) % group_order() == commitment_log(
            seq![(k1 + k2) % group_order()],
            v1,
        ),
{
    let n = group_order() as int;
    let h = nums_log(0) as int;
    let k = (k1 + k2) % group_order();
    let x = v1 * h + k1;
    assert(basis_logs(1)[0] == 1);
    assert(seq![k1].drop_first() =~= Seq::<nat>::empty());
    assert(seq![k].drop_first() =~= Seq::<nat>::empty());
    assert(inner_product(Seq::<nat>::empty(), basis_logs(1).drop_first()) == 0);
    lemma_mul_basics(k1 as int);
    lemma_mul_basics(k as int);
    assert(inner_product(seq![k1], basis_logs(1)) == k1);
    assert(inner_product(seq![k], basis_logs(1)) == k);
    lemma_mod_twice(x, n);
    lemma_add_mod_noop(x % n, k2 as int, n);
    lemma_add_mod_noop(x, k2 as int, n);
    lemma_mod_twice(k1 as int + k2 as int, n);
    lemma_add_congruent(v1 * h, k as int, v1 * h, k1 as int + k2 as int);
    assert(x + k2 == v1 * h + (k1 + k2));
}

/// The commitment to `(k, v)` is opened by `(k, v)`.
pub proof fn lemma_open_correctness(k: Seq<nat>, v: nat)
    ensures
        opens(commitment_log(k, v), k, v),
{
}

/// The sum of the commitments to `(ks[i], vs[i])` is the commitment to the sums `(Σ ks[i], Σ vs[i])`.
pub proof fn lemma_sum_of_commitments(cs: Seq<PedersenCommitment>, ks: Seq<Seq<nat>>, vs: Seq<nat>, n: nat)
    requires
        cs.len() == ks.len(),
        cs.len() == vs.len(),
        forall|i: int| 0 <= i < ks.len() ==> (#[trigger] ks[i]).len() == n,
        forall|i: int| 0 <= i < cs.len() ==> (#[trigger] cs[i]).value() == commitment_log(ks[i], vs[i]),
    ensures
        sum_values(cs) == commitment_log(sum_vectors(ks, n), sum_scalars(vs)),
    decreases cs.len(),
{
    if cs.len() == 0 {
        lemma_inner_product_zeros(n, basis_logs(n));
        lemma_mul_basics(nums_log(0) as int);
        lemma_small_mod(0, group_order());
    } else {
        lemma_sum_vectors_len(ks.drop_last(), n);
        let m = (cs.len() - 1) as int;
        lemma_sum_of_commitments(cs.drop_last(), ks.drop_last(), vs.drop_last(), n);
        assert(cs.last() == cs[m]);
        assert(ks.last().len() == n);
        lemma_homomorphism(sum_vectors(ks.drop_last(), n), ks.last(), sum_scalars(vs.drop_last()), vs.last());
    }
}

} // verus!
