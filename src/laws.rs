use vstd::prelude::*;
use vstd::arithmetic::div_mod::{
    lemma_add_mod_noop, lemma_mod_twice, lemma_mul_mod_noop, lemma_mul_mod_noop_left,
    lemma_mul_mod_noop_right, lemma_small_mod, lemma_sub_mod_noop,
};
use vstd::arithmetic::power::{lemma_pow0, lemma_pow1, lemma_pow_adds, pow};
use crate::commitment::{commit_outcome, prove_outcome, verify_accepts, Commitment, PointProof, PublicParameters};
use crate::field::{modulus, Scalar};
use crate::group::G1Point;
use crate::poly::{coef_sum_at, lemma_part_empty, lemma_part_single, lemma_part_split, part_value, SparsePoly};

verus! {

/// On parameters that hold the powers of one secret, the pairing of each G1
/// power with the first G2 power equals the pairing of the next G1 power with
/// the G2 generator.
pub proof fn lemma_pairing_ladder(pp: &PublicParameters, tau: int, i: int)
    requires
        pp.is_powers_of(tau),
        0 <= i,
        i + 1 < pp.g1().len(),
        2 <= pp.g2().len(),
    ensures
        (pp.g1()[i].log() * pp.g2()[1].log()) % modulus() == (pp.g1()[i + 1].log()
            * pp.g2()[0].log()) % modulus(),
{
    let m = modulus();
    let a = pow(tau, i as nat);
    assert(pp.g1()[i].log() == a % m);
    assert(pp.g2()[1].log() == pow(tau, 1) % m);
    assert(pp.g1()[i + 1].log() == pow(tau, (i + 1) as nat) % m);
    assert(pp.g2()[0].log() == pow(tau, 0) % m);
    lemma_pow0(tau);
    lemma_pow1(tau);
    lemma_pow_adds(tau, i as nat, 1);
    assert((i + 1) as nat == i as nat + 1);
    lemma_small_mod(1, m as nat);
    lemma_mul_mod_noop(a, tau, m);
    lemma_mod_twice(a * tau, m);
    lemma_mul_mod_noop_left(a * tau, 1, m);
}

proof fn lemma_sum_mod(a: int, b: int, c: int, m: int)
    requires
        m > 0,
    ensures
        (a % m + b % m + c % m) % m == (a + b + c) % m,
{
    lemma_add_mod_noop(a, b, m);
    lemma_add_mod_noop(a + b, c, m);
    lemma_mod_twice(a % m + b % m, m);
    lemma_add_mod_noop(a % m + b % m, c % m, m);
    lemma_add_mod_noop(a % m + b % m, c, m);
    lemma_mod_twice(c, m);
}

/// An opening made by `prove` at `i` is accepted by `verify` for the
/// committed polynomial's coefficient at `i` (zero where no term has index `i`).
pub proof fn lemma_opening_accepted(
    pp: &PublicParameters,
    poly: &SparsePoly,
    i: int,
    c: Commitment,
    proof: PointProof,
)
    requires
        pp.wf(),
        poly.wf(),
        0 <= i < pp.g1().len(),
        commit_outcome(pp, poly, Ok(c)),
        prove_outcome(pp, poly, i, Ok(proof)),
    ensures
        verify_accepts(pp, &c, i, poly.coefficient(i), &proof),
{
    let m = modulus();
    let g = pp.g1();
    let n = g.len() as int;
    let idx = poly.idx@;
    let coef = poly.coef@;
    lemma_part_split(g, idx, coef, 0, i, n);
    lemma_part_split(g, idx, coef, i, i + 1, n);
    lemma_part_single(g, idx, coef, i);
    let lo = part_value(g, idx, coef, 0, i);
    let hi = part_value(g, idx, coef, i + 1, n);
    let s = coef_sum_at(idx, coef, i);
    let gl = g[i].log();
    lemma_mul_mod_noop_right(gl, s, m);
    lemma_sum_mod(gl * (s % m), lo, hi, m);
    lemma_sum_mod(gl * s, lo, hi, m);
    lemma_mod_twice(lo, m);
    lemma_mod_twice(hi, m);
    lemma_mod_twice(gl * (s % m), m);
    lemma_mod_twice(gl * s, m);
    assert(gl * s == s * gl) by (nonlinear_arith);
}

/// `verify` rejects every value whose multiple of the base at `i` differs
/// from that of the committed coefficient, for an opening made by `prove`.
pub proof fn lemma_wrong_value_rejected(
    pp: &PublicParameters,
    poly: &SparsePoly,
    i: int,
    c: Commitment,
    proof: PointProof,
    v: int,
)
    requires
        pp.wf(),
        poly.wf(),
        0 <= i < pp.g1().len(),
        commit_outcome(pp, poly, Ok(c)),
        prove_outcome(pp, poly, i, Ok(proof)),
        (pp.g1()[i].log() * v) % modulus() != (pp.g1()[i].log() * poly.coefficient(i)) % modulus(),
    ensures
        !verify_accepts(pp, &c, i, v, &proof),
{
    lemma_opening_accepted(pp, poly, i, c, proof);
    let m = modulus();
    let gl = pp.g1()[i].log();
    let x = proof.0.log() + proof.1.log();
    let a = gl * poly.coefficient(i);
    let b = gl * v;
    assert(gl * poly.coefficient(i) + proof.0.log() + proof.1.log() == a + x);
    assert(gl * v + proof.0.log() + proof.1.log() == b + x);
    if verify_accepts(pp, &c, i, v, &proof) {
        lemma_sub_mod_noop(a + x, x, m);
        lemma_sub_mod_noop(b + x, x, m);
        assert(a + x - x == a);
        assert(b + x - x == b);
    }
}

/// The empty polynomial commits to the identity; against the identity, an
/// opening of two identities is accepted for the value zero, and rejected for
/// every value whose multiple of the base at `i` is not the identity.
pub proof fn lemma_empty_poly(
    pp: &PublicParameters,
    empty: &SparsePoly,
    c: Commitment,
    identity: Commitment,
    proof: PointProof,
    i: int,
    v: int,
)
    requires
        empty.idx@.len() == 0,
        empty.coef@.len() == 0,
        commit_outcome(pp, empty, Ok(c)),
        identity.0.log() == 0,
        proof.0.log() == 0,
        proof.1.log() == 0,
        0 <= i < pp.g1().len(),
    ensures
        c.0.log() == identity.0.log(),
        verify_accepts(pp, &identity, i, 0, &proof),
        (pp.g1()[i].log() * v) % modulus() != 0 ==> !verify_accepts(pp, &identity, i, v, &proof),
{
    let m = modulus();
    lemma_small_mod(0, m as nat);
    assert(pp.g1()[i].log() * 0 == 0);
}

/// Sum, as a multiple of the generator, of `coefficient(j) * bases[j]` over `j < k`.
pub open spec fn dense_value(bases: Seq<G1Point>, idx: Seq<usize>, coef: Seq<Scalar>, k: int) -> int
    decreases k,
{
    if k <= 0 {
        0
    } else {
        dense_value(bases, idx, coef, k - 1) + bases[k - 1].log() * coef_sum_at(idx, coef, k - 1)
    }
}

/// The terms below `k`, summed term by term or index by index, agree.
pub proof fn lemma_part_dense(bases: Seq<G1Point>, idx: Seq<usize>, coef: Seq<Scalar>, k: int)
    requires
        0 <= k,
    ensures
        part_value(bases, idx, coef, 0, k) == dense_value(bases, idx, coef, k),
    decreases k,
{
    if k > 0 {
        lemma_part_dense(bases, idx, coef, k - 1);
        lemma_part_split(bases, idx, coef, 0, k - 1, k);
        lemma_part_single(bases, idx, coef, k - 1);
    } else {
        lemma_part_empty(bases, idx, coef, 0, 0);
    }
}

proof fn lemma_dense_add(g: Seq<G1Point>, p: &SparsePoly, q: &SparsePoly, r: &SparsePoly, k: int)
    requires
        0 <= k,
        forall|j: int|
            0 <= j < k ==> #[trigger] r.coefficient(j) == (p.coefficient(j) + q.coefficient(j))
                % modulus(),
    ensures
        dense_value(g, r.idx@, r.coef@, k) % modulus() == (dense_value(g, p.idx@, p.coef@, k)
            + dense_value(g, q.idx@, q.coef@, k)) % modulus(),
    decreases k,
{
    if k > 0 {
        let m = modulus();
        lemma_dense_add(g, p, q, r, k - 1);
        let dr = dense_value(g, r.idx@, r.coef@, k - 1);
        let dp = dense_value(g, p.idx@, p.coef@, k - 1);
        let dq = dense_value(g, q.idx@, q.coef@, k - 1);
        let l = g[k - 1].log();
        let cr = coef_sum_at(r.idx@, r.coef@, k - 1);
        let cp = coef_sum_at(p.idx@, p.coef@, k - 1);
        let cq = coef_sum_at(q.idx@, q.coef@, k - 1);
        assert(r.coefficient(k - 1) == (p.coefficient(k - 1) + q.coefficient(k - 1)) % m);
        lemma_add_mod_noop(cp, cq, m);
        lemma_mod_twice(cr, m);
        assert(cr % m == (cp + cq) % m);
        lemma_mul_mod_noop_right(l, cr, m);
        lemma_mul_mod_noop_right(l, cp + cq, m);
        lemma_add_mod_noop(dr, l * cr, m);
        lemma_add_mod_noop(dp + dq, l * (cp + cq), m);
        assert(l * (cp + cq) == l * cp + l * cq) by (nonlinear_arith);
        assert(dp + dq + l * (cp + cq) == (dp + l * cp) + (dq + l * cq));
    }
}

/// Commitments add: where each coefficient of `r` is the field sum of those
/// of `p` and `q`, the commitment to `r` is the sum of the commitments to `p`
/// and `q`.
pub proof fn lemma_commit_additive(
    pp: &PublicParameters,
    p: &SparsePoly,
    q: &SparsePoly,
    r: &SparsePoly,
    cp: Commitment,
    cq: Commitment,
    cr: Commitment,
)
    requires
        pp.wf(),
        commit_outcome(pp, p, Ok(cp)),
        commit_outcome(pp, q, Ok(cq)),
        commit_outcome(pp, r, Ok(cr)),
        forall|j: int|
            0 <= j < pp.g1().len() ==> #[trigger] r.coefficient(j) == (p.coefficient(j)
                + q.coefficient(j)) % modulus(),
    ensures
        cr.0.log() == (cp.0.log() + cq.0.log()) % modulus(),
{
    let g = pp.g1();
    let n = g.len() as int;
    let m = modulus();
    lemma_part_dense(g, p.idx@, p.coef@, n);
    lemma_part_dense(g, q.idx@, q.coef@, n);
    lemma_part_dense(g, r.idx@, r.coef@, n);
    lemma_dense_add(g, p, q, r, n);
    lemma_add_mod_noop(dense_value(g, p.idx@, p.coef@, n), dense_value(g, q.idx@, q.coef@, n), m);
}

} // verus!
