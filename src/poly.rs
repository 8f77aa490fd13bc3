use vstd::prelude::*;
use crate::field::{modulus, Scalar};
use crate::group::{all_scalars_wf, G1Point};
use vstd::arithmetic::div_mod::{lemma_add_mod_noop, lemma_mod_twice, lemma_small_mod};

verus! {

/// A polynomial given by its terms: `coef[k] * x^idx[k]` for each `k`.
/// Terms that share an index add up.
#[derive(Debug)]
pub struct SparsePoly {
    pub idx: Vec<usize>,
    pub coef: Vec<Scalar>,
}

/// Sum of `coef[k] * bases[idx[k]]`, as a multiple of the generator, over the
/// terms whose index lies in `[lo, hi)`.
pub open spec fn part_value(
    bases: Seq<G1Point>,
    idx: Seq<usize>,
    coef: Seq<Scalar>,
    lo: int,
    hi: int,
) -> int
    decreases idx.len(),
{
    if idx.len() == 0 || coef.len() == 0 {
        0
    } else {
        let i = idx.last() as int;
        part_value(bases, idx.drop_last(), coef.drop_last(), lo, hi) + if lo <= i < hi {
            bases[i].log() * coef.last().value()
        } else {
            0
        }
    }
}

/// Sum of the coefficients of the terms with index `i`.
pub open spec fn coef_sum_at(idx: Seq<usize>, coef: Seq<Scalar>, i: int) -> int
    decreases idx.len(),
{
    if idx.len() == 0 || coef.len() == 0 {
        0
    } else {
        coef_sum_at(idx.drop_last(), coef.drop_last(), i) + if idx.last() == i {
            coef.last().value()
        } else {
            0
        }
    }
}

impl SparsePoly {
    /// Equal lengths and field elements in canonical form.
    pub open spec fn wf(&self) -> bool {
        self.idx@.len() == self.coef@.len() && all_scalars_wf(self.coef@)
    }

    pub open spec fn indices_below(&self, n: int) -> bool {
        forall|k: int| 0 <= k < self.idx@.len() ==> (#[trigger] self.idx@[k]) < n
    }

    /// The coefficient of `x^i`, reduced into the field.
    pub open spec fn coefficient(&self, i: int) -> int {
        coef_sum_at(self.idx@, self.coef@, i) % modulus()
    }

    /// The polynomial evaluated at the secret behind `bases`: the sum of its
    /// terms, each as a multiple of the generator.
    pub open spec fn value_over(&self, bases: Seq<G1Point>) -> int {
        part_value(bases, self.idx@, self.coef@, 0, bases.len() as int)
    }

    /// Indices strictly increasing, no zero coefficient.
    pub open spec fn is_canonical(&self) -> bool {
        &&& forall|a: int, b: int| 0 <= a < b < self.idx@.len() ==> self.idx@[a] < self.idx@[b]
        &&& forall|k: int| 0 <= k < self.coef@.len() ==> (#[trigger] self.coef@[k]).value() != 0
    }

    pub fn new() -> (r: SparsePoly)
        ensures
            r.wf(),
            r.idx@.len() == 0,
    {
        SparsePoly { idx: Vec::new(), coef: Vec::new() }
    }

    /// Adds `c` to the coefficient of `x^index`, keeping the canonical form:
    /// a term whose coefficient becomes zero is dropped.
    #[verifier::rlimit(60)]
    #[verifier::spinoff_prover]
    pub fn insert(&mut self, index: usize, c: Scalar)
        requires
            old(self).wf(),
            old(self).is_canonical(),
            c.wf(),
        ensures
            final(self).wf(),
            final(self).is_canonical(),
            forall|j: int|
                #[trigger] final(self).coefficient(j) == if j == index {
                    (old(self).coefficient(j) + c.value()) % modulus()
                } else {
                    old(self).coefficient(j)
                },
    {
        let ghost old_idx = self.idx@;
        let ghost old_coef = self.coef@;
        let mut pos: usize = 0;
        while pos < self.idx.len() && self.idx[pos] < index
            invariant
                self.wf(),
                self.idx@ == old_idx,
                self.coef@ == old_coef,
                pos <= self.idx@.len(),
                forall|k: int| 0 <= k < pos ==> self.idx@[k] < index,
            decreases self.idx@.len() - pos,
        {
            pos = pos + 1;
        }
        proof {
            lemma_mod_small_value(c.value());
            assert forall|k: int| pos <= k < old_idx.len() implies old_idx[k] >= index by {
                if k > pos {
                    assert(old_idx[pos as int] < old_idx[k]);
                }
            }
        }
        if pos < self.idx.len() && self.idx[pos] == index {
            let s = self.coef[pos].add(&c);
            proof {
                lemma_mod_small_value(old_coef[pos as int].value());
                lemma_add_mod_noop(old_coef[pos as int].value(), c.value(), modulus());
            }
            let zero = s.is_zero();
            if zero {
                self.idx.remove(pos);
                self.coef.remove(pos);
            } else {
                self.coef.set(pos, s);
            }
            proof {
                assert forall|j: int| #[trigger] self.coefficient(j) == if j == index {
                    (coef_sum_at(old_idx, old_coef, j) % modulus() + c.value()) % modulus()
                } else {
                    coef_sum_at(old_idx, old_coef, j) % modulus()
                } by {
                    lemma_coef_lookup(old_idx, old_coef, j);
                    lemma_coef_lookup(self.idx@, self.coef@, j);
                    lemma_coef_present(old_idx, old_coef, pos as int);
                    if j != index {
                        if exists|k: int| 0 <= k < old_idx.len() && old_idx[k] == j {
                            let k = choose|k: int| 0 <= k < old_idx.len() && old_idx[k] == j;
                            if zero && k > pos {
                                assert(self.idx@[k - 1] == j);
                            } else {
                                assert(self.idx@[k] == j);
                            }
                        } else {
                            assert forall|k: int| 0 <= k < self.idx@.len() implies self.idx@[k] != j by {
                                if zero && k >= pos {
                                    assert(self.idx@[k] == old_idx[k + 1]);
                                } else {
                                    assert(self.idx@[k] == old_idx[k]);
                                }
                            }
                        }
                    } else {
                        if zero {
                            assert forall|k: int| 0 <= k < self.idx@.len() implies self.idx@[k] != j by {
                                if k >= pos {
                                    assert(self.idx@[k] == old_idx[k + 1]);
                                    assert(old_idx[pos as int] < old_idx[k + 1]);
                                } else {
                                    assert(old_idx[k] < old_idx[pos as int]);
                                }
                            }
                        } else {
                            assert(self.idx@[pos as int] == j);
                        }
                    }
                }
            }
        } else {
            let c_zero = c.is_zero();
            if !c_zero {
                self.idx.insert(pos, index);
                self.coef.insert(pos, c);
            }
            proof {
                assert forall|j: int| #[trigger] self.coefficient(j) == if j == index {
                    (coef_sum_at(old_idx, old_coef, j) % modulus() + c.value()) % modulus()
                } else {
                    coef_sum_at(old_idx, old_coef, j) % modulus()
                } by {
                    lemma_coef_lookup(old_idx, old_coef, j);
                    lemma_coef_lookup(self.idx@, self.coef@, j);
                    lemma_mod_small_value(0);
                    if j != index {
                        if exists|k: int| 0 <= k < old_idx.len() && old_idx[k] == j {
                            let k = choose|k: int| 0 <= k < old_idx.len() && old_idx[k] == j;
                            if !c_zero && k >= pos {
                                assert(self.idx@[k + 1] == j);
                            } else {
                                assert(self.idx@[k] == j);
                            }
                        } else {
                            assert forall|k: int| 0 <= k < self.idx@.len() implies self.idx@[k] != j by {
                                if !c_zero && k > pos {
                                    assert(self.idx@[k] == old_idx[k - 1]);
                                } else if !c_zero && k == pos {
                                } else {
                                    assert(self.idx@[k] == old_idx[k]);
                                }
                            }
                        }
                    } else {
                        assert forall|k: int| 0 <= k < old_idx.len() implies old_idx[k] != j by {
                            if k >= pos {
                                assert(old_idx[k] >= index);
                            }
                        }
                        if !c_zero {
                            assert(self.idx@[pos as int] == j);
                        }
                    }
                }
            }
        }
    }

    /// The canonical polynomial whose coefficients are the field sums of
    /// those of `self` and `other`.
    pub fn sum(&self, other: &SparsePoly) -> (r: SparsePoly)
        requires
            self.wf(),
            self.is_canonical(),
            other.wf(),
        ensures
            r.wf(),
            r.is_canonical(),
            forall|j: int|
                #[trigger] r.coefficient(j) == (self.coefficient(j) + other.coefficient(j))
                    % modulus(),
    {
        let mut r = SparsePoly::new();
        let mut k: usize = 0;
        while k < self.idx.len()
            invariant
                self.wf(),
                k <= self.idx@.len(),
                r.idx@ == self.idx@.take(k as int),
                r.coef@ == self.coef@.take(k as int),
            decreases self.idx@.len() - k,
        {
            r.push(self.idx[k], self.coef[k]);
            assert(r.idx@ =~= self.idx@.take(k + 1));
            assert(r.coef@ =~= self.coef@.take(k + 1));
            k = k + 1;
        }
        assert(r.idx@ =~= self.idx@);
        assert(r.coef@ =~= self.coef@);
        let mut k: usize = 0;
        while k < other.idx.len()
            invariant
                other.wf(),
                k <= other.idx@.len(),
                r.wf(),
                r.is_canonical(),
                forall|j: int|
                    #[trigger] r.coefficient(j) == (self.coefficient(j) + coef_sum_at(
                        other.idx@.take(k as int),
                        other.coef@.take(k as int),
                        j,
                    )) % modulus(),
            decreases other.idx@.len() - k,
        {
            let ghost before = r.coefficient_map();
            let i = other.idx[k];
            let c = other.coef[k];
            r.insert(i, c);
            proof {
                let oi = other.idx@.take(k + 1);
                let oc = other.coef@.take(k + 1);
                assert(oi.drop_last() =~= other.idx@.take(k as int));
                assert(oc.drop_last() =~= other.coef@.take(k as int));
                assert forall|j: int|
                    #[trigger] r.coefficient(j) == (self.coefficient(j) + coef_sum_at(oi, oc, j))
                        % modulus() by {
                    let m = modulus();
                    let a = self.coefficient(j);
                    let b = coef_sum_at(other.idx@.take(k as int), other.coef@.take(k as int), j);
                    let d = if j == i { c.value() } else { 0 };
                    assert(before[j] == (a + b) % m);
                    lemma_add_mod_noop(a + b, d, m);
                    lemma_mod_small_value(d);
                    lemma_mod_twice(a + b, m);
                }
            }
            k = k + 1;
        }
        assert(other.idx@.take(k as int) =~= other.idx@);
        assert(other.coef@.take(k as int) =~= other.coef@);
        r
    }

    /// Every coefficient, as a map from index.
    pub open spec fn coefficient_map(&self) -> Map<int, int> {
        Map::new(|j: int| true, |j: int| self.coefficient(j))
    }

    /// Adds the term `c * x^index` at the end.
    pub fn push(&mut self, index: usize, c: Scalar)
        ensures
            final(self).idx@ == old(self).idx@.push(index),
            final(self).coef@ == old(self).coef@.push(c),
    {
        self.idx.push(index);
        self.coef.push(c);
    }
}

/// No term at `j`: the coefficient there is zero.
proof fn lemma_coef_absent(idx: Seq<usize>, coef: Seq<Scalar>, j: int)
    requires
        forall|k: int| 0 <= k < idx.len() ==> idx[k] != j,
    ensures
        coef_sum_at(idx, coef, j) == 0,
    decreases idx.len(),
{
    if idx.len() > 0 && coef.len() > 0 {
        lemma_coef_absent(idx.drop_last(), coef.drop_last(), j);
    }
}

/// With strictly increasing indices, the coefficient at `idx[k]` is `coef[k]`.
proof fn lemma_coef_present(idx: Seq<usize>, coef: Seq<Scalar>, k: int)
    requires
        idx.len() == coef.len(),
        0 <= k < idx.len(),
        forall|a: int, b: int| 0 <= a < b < idx.len() ==> idx[a] < idx[b],
    ensures
        coef_sum_at(idx, coef, idx[k] as int) == coef[k].value(),
    decreases idx.len(),
{
    let n = idx.len() - 1;
    if k == n {
        assert forall|t: int| 0 <= t < idx.drop_last().len() implies idx.drop_last()[t] != idx[k] by {
            assert(idx[t] < idx[n]);
        }
        lemma_coef_absent(idx.drop_last(), coef.drop_last(), idx[k] as int);
    } else {
        assert(idx[k] < idx[n]);
        lemma_coef_present(idx.drop_last(), coef.drop_last(), k);
    }
}

/// The coefficient at `j` of a canonical polynomial, by cases.
proof fn lemma_coef_lookup(idx: Seq<usize>, coef: Seq<Scalar>, j: int)
    requires
        idx.len() == coef.len(),
        forall|a: int, b: int| 0 <= a < b < idx.len() ==> idx[a] < idx[b],
    ensures
        forall|k: int| 0 <= k < idx.len() && idx[k] == j ==> coef_sum_at(idx, coef, j) == coef[k].value(),
        (forall|k: int| 0 <= k < idx.len() ==> idx[k] != j) ==> coef_sum_at(idx, coef, j) == 0,
{
    assert forall|k: int| 0 <= k < idx.len() && idx[k] == j implies coef_sum_at(idx, coef, j) == coef[k].value() by {
        lemma_coef_present(idx, coef, k);
    }
    if forall|k: int| 0 <= k < idx.len() ==> idx[k] != j {
        lemma_coef_absent(idx, coef, j);
    }
}

proof fn lemma_mod_small_value(v: int)
    requires
        0 <= v < modulus(),
    ensures
        v % modulus() == v,
{
    lemma_small_mod(v as nat, modulus() as nat);
}

/// Splitting the index range splits the sum.
pub proof fn lemma_part_split(
    bases: Seq<G1Point>,
    idx: Seq<usize>,
    coef: Seq<Scalar>,
    lo: int,
    mid: int,
    hi: int,
)
    requires
        lo <= mid <= hi,
    ensures
        part_value(bases, idx, coef, lo, hi) == part_value(bases, idx, coef, lo, mid) + part_value(
            bases,
            idx,
            coef,
            mid,
            hi,
        ),
    decreases idx.len(),
{
    if idx.len() != 0 && coef.len() != 0 {
        lemma_part_split(bases, idx.drop_last(), coef.drop_last(), lo, mid, hi);
    }
}

/// The terms at a single index add up to their summed coefficient times the base.
pub proof fn lemma_part_single(bases: Seq<G1Point>, idx: Seq<usize>, coef: Seq<Scalar>, i: int)
    ensures
        part_value(bases, idx, coef, i, i + 1) == bases[i].log() * coef_sum_at(idx, coef, i),
    decreases idx.len(),
{
    if idx.len() != 0 && coef.len() != 0 {
        lemma_part_single(bases, idx.drop_last(), coef.drop_last(), i);
        let a = bases[i].log();
        let b = coef_sum_at(idx.drop_last(), coef.drop_last(), i);
        let c = coef.last().value();
        assert(a * (b + c) == a * b + a * c) by (nonlinear_arith);
    }
}

/// No term has an index in an empty range.
pub proof fn lemma_part_empty(bases: Seq<G1Point>, idx: Seq<usize>, coef: Seq<Scalar>, lo: int, hi: int)
    requires
        hi <= lo,
    ensures
        part_value(bases, idx, coef, lo, hi) == 0,
    decreases idx.len(),
{
    if idx.len() != 0 && coef.len() != 0 {
        lemma_part_empty(bases, idx.drop_last(), coef.drop_last(), lo, hi);
    }
}

} // verus!
