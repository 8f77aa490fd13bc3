use vstd::prelude::*;
use vstd::arithmetic::div_mod::{lemma_add_mod_noop, lemma_mod_twice};
use crate::field::{modulus, Scalar};
use crate::group::{
    all_points_wf, all_scalars_wf, g1_add, g1_eq, g1_identity, g1_msm, g1_mul, msm_value,
    G1Point, G2Point,
};
use crate::poly::{part_value, SparsePoly};

verus! {

/// Why an operation of the scheme failed.
#[derive(Clone, Copy, Debug, PartialEq, Eq, Structural)]
pub enum Error {
    RngFailure,
    DegreeTooLarge,
    DegenerateSetup,
    IndexOutOfRange,
    MalformedPoly,
    MalformedInput,
    Deserialize,
    VerifyReject,
}

/// The structured reference string: powers of a secret in G1 and in G2.
#[derive(Debug)]
pub struct PublicParameters {
    pub powers_of_g: Vec<G1Point>,
    pub powers_of_g2: Vec<G2Point>,
}

/// A commitment to a polynomial: one point of G1.
#[derive(Clone, Copy, Debug)]
pub struct Commitment(pub G1Point);

/// An opening at one index: the sums of the terms below and above it.
#[derive(Clone, Copy, Debug)]
pub struct PointProof(pub G1Point, pub G1Point);

impl PublicParameters {
    pub open spec fn g1(&self) -> Seq<G1Point> {
        self.powers_of_g@
    }

    pub open spec fn g2(&self) -> Seq<G2Point> {
        self.powers_of_g2@
    }

    /// Every point is a valid encoding.
    pub open spec fn wf(&self) -> bool {
        &&& all_points_wf(self.g1())
        &&& forall|k: int| 0 <= k < self.g2().len() ==> (#[trigger] self.g2()[k]).wf()
    }

    /// What a polynomial commits to under these parameters, as a multiple of
    /// the generator.
    pub open spec fn commit_value(&self, poly: &SparsePoly) -> int {
        poly.value_over(self.g1()) % modulus()
    }

    /// Number of G1 powers, `2^D`.
    pub fn g1_len(&self) -> (r: usize)
        ensures
            r == self.g1().len(),
    {
        self.powers_of_g.len()
    }

    /// Number of G2 powers.
    pub fn g2_len(&self) -> (r: usize)
        ensures
            r == self.g2().len(),
    {
        self.powers_of_g2.len()
    }

    pub fn g1_power(&self, i: usize) -> (r: G1Point)
        requires
            i < self.g1().len(),
        ensures
            r == self.g1()[i as int],
    {
        self.powers_of_g[i]
    }

    pub fn g2_power(&self, i: usize) -> (r: G2Point)
        requires
            i < self.g2().len(),
        ensures
            r == self.g2()[i as int],
    {
        self.powers_of_g2[i]
    }

    /// Commits to the polynomial whose coefficient of `x^k` is `polynomial[k]`.
    pub fn commit(&self, polynomial: &Vec<Scalar>) -> (r: Result<Commitment, Error>)
        requires
            self.wf(),
            all_scalars_wf(polynomial@),
        ensures
            dense_commit_outcome(self, polynomial@, r),
    {
        Commitment::new(self, polynomial)
    }

    /// Opens the polynomial whose coefficient of `x^k` is `polynomial[k]` at `index`.
    pub fn prove_point(&self, polynomial: &Vec<Scalar>, index: usize) -> (r: Result<PointProof, Error>)
        requires
            self.wf(),
            all_scalars_wf(polynomial@),
        ensures
            dense_prove_outcome(self, polynomial@, index as int, r),
    {
        PointProof::new(self, polynomial, index)
    }

    /// Commits to `poly`.
    pub fn commit_sparse(&self, poly: &SparsePoly) -> (r: Result<Commitment, Error>)
        requires
            self.wf(),
            all_scalars_wf(poly.coef@),
        ensures
            commit_outcome(self, poly, r),
    {
        Commitment::new_sparse(self, poly)
    }

    /// Opens `poly` at `index`.
    pub fn prove_point_sparse(&self, poly: &SparsePoly, index: usize) -> (r: Result<PointProof, Error>)
        requires
            self.wf(),
            all_scalars_wf(poly.coef@),
        ensures
            prove_outcome(self, poly, index as int, r),
    {
        PointProof::new_sparse(self, poly, index)
    }
}

/// The outcome of committing: the error for a malformed polynomial, then for
/// an index past the parameters, and otherwise the sum of all terms.
pub open spec fn commit_outcome(pp: &PublicParameters, poly: &SparsePoly, r: Result<Commitment, Error>) -> bool {
    if poly.idx@.len() != poly.coef@.len() {
        r == Err::<Commitment, Error>(Error::MalformedPoly)
    } else if !poly.indices_below(pp.g1().len() as int) {
        r == Err::<Commitment, Error>(Error::IndexOutOfRange)
    } else {
        &&& r is Ok
        &&& r.unwrap().0.wf()
        &&& r.unwrap().0.log() == pp.commit_value(poly)
    }
}

/// The outcome of opening at `i`: the errors as for committing (an index `i`
/// past the parameters is out of range too), and otherwise the sums of the
/// terms below `i` and above `i`.
pub open spec fn prove_outcome(pp: &PublicParameters, poly: &SparsePoly, i: int, r: Result<PointProof, Error>) -> bool {
    let n = pp.g1().len() as int;
    if poly.idx@.len() != poly.coef@.len() {
        r == Err::<PointProof, Error>(Error::MalformedPoly)
    } else if i >= n || !poly.indices_below(n) {
        r == Err::<PointProof, Error>(Error::IndexOutOfRange)
    } else {
        &&& r is Ok
        &&& r.unwrap().0.wf()
        &&& r.unwrap().1.wf()
        &&& r.unwrap().0.log() == part_value(pp.g1(), poly.idx@, poly.coef@, 0, i) % modulus()
        &&& r.unwrap().1.log() == part_value(pp.g1(), poly.idx@, poly.coef@, i + 1, n) % modulus()
    }
}

/// The indices `0, 1, ..., n - 1`.
pub open spec fn index_seq(n: nat) -> Seq<usize> {
    Seq::new(n, |k: int| k as usize)
}

/// The outcome of committing to a dense polynomial: out of range where it
/// has more coefficients than the parameters have powers, and otherwise the
/// sum of `coef[k] * g^k`.
pub open spec fn dense_commit_outcome(pp: &PublicParameters, coef: Seq<Scalar>, r: Result<Commitment, Error>) -> bool {
    if coef.len() > pp.g1().len() {
        r == Err::<Commitment, Error>(Error::IndexOutOfRange)
    } else {
        &&& r is Ok
        &&& r.unwrap().0.wf()
        &&& r.unwrap().0.log() == part_value(pp.g1(), index_seq(coef.len()), coef, 0, pp.g1().len() as int) % modulus()
    }
}

/// The outcome of opening a dense polynomial at `i`.
pub open spec fn dense_prove_outcome(pp: &PublicParameters, coef: Seq<Scalar>, i: int, r: Result<PointProof, Error>) -> bool {
    let n = pp.g1().len() as int;
    if i >= n || coef.len() > n {
        r == Err::<PointProof, Error>(Error::IndexOutOfRange)
    } else {
        &&& r is Ok
        &&& r.unwrap().0.wf()
        &&& r.unwrap().1.wf()
        &&& r.unwrap().0.log() == part_value(pp.g1(), index_seq(coef.len()), coef, 0, i) % modulus()
        &&& r.unwrap().1.log() == part_value(pp.g1(), index_seq(coef.len()), coef, i + 1, n) % modulus()
    }
}

/// The sparse form of a dense polynomial.
fn dense_to_sparse(polynomial: &Vec<Scalar>) -> (r: SparsePoly)
    ensures
        r.idx@ == index_seq(polynomial@.len()),
        r.coef@ == polynomial@,
        polynomial@.len() <= usize::MAX,
{
    let mut p = SparsePoly::new();
    let mut k: usize = 0;
    while k < polynomial.len()
        invariant
            k <= polynomial@.len(),
            p.idx@ == index_seq(k as nat),
            p.coef@ == polynomial@.take(k as int),
        decreases polynomial@.len() - k,
    {
        p.push(k, polynomial[k]);
        assert(p.idx@ =~= index_seq((k + 1) as nat));
        assert(p.coef@ =~= polynomial@.take(k + 1));
        k = k + 1;
    }
    assert(polynomial@.take(k as int) =~= polynomial@);
    assert(polynomial@.len() == polynomial.len());
    p
}

/// Whether every index is below `n`.
fn indices_in_range(poly: &SparsePoly, n: usize) -> (r: bool)
    ensures
        r == poly.indices_below(n as int),
{
    let mut k: usize = 0;
    while k < poly.idx.len()
        invariant
            k <= poly.idx@.len(),
            forall|j: int| 0 <= j < k ==> (#[trigger] poly.idx@[j]) < n,
        decreases poly.idx@.len() - k,
    {
        if poly.idx[k] >= n {
            return false;
        }
        k = k + 1;
    }
    true
}

/// The bases and scalars of the terms whose index lies in `[lo, hi)`.
fn gather(pp: &PublicParameters, poly: &SparsePoly, lo: usize, hi: usize) -> (r: (
    Vec<G1Point>,
    Vec<Scalar>,
))
    requires
        pp.wf(),
        poly.wf(),
        poly.indices_below(pp.g1().len() as int),
    ensures
        r.0@.len() == r.1@.len(),
        all_points_wf(r.0@),
        all_scalars_wf(r.1@),
        msm_value(r.0@, r.1@) == part_value(pp.g1(), poly.idx@, poly.coef@, lo as int, hi as int),
{
    let mut bases: Vec<G1Point> = Vec::new();
    let mut scalars: Vec<Scalar> = Vec::new();
    let mut k: usize = 0;
    while k < poly.idx.len()
        invariant
            pp.wf(),
            poly.wf(),
            poly.indices_below(pp.g1().len() as int),
            k <= poly.idx@.len(),
            bases@.len() == scalars@.len(),
            all_points_wf(bases@),
            all_scalars_wf(scalars@),
            msm_value(bases@, scalars@) == part_value(
                pp.g1(),
                poly.idx@.take(k as int),
                poly.coef@.take(k as int),
                lo as int,
                hi as int,
            ),
        decreases poly.idx@.len() - k,
    {
        let i = poly.idx[k];
        let ghost old_bases = bases@;
        let ghost old_scalars = scalars@;
        assert(poly.idx@.take(k + 1).drop_last() == poly.idx@.take(k as int));
        assert(poly.coef@.take(k + 1).drop_last() == poly.coef@.take(k as int));
        if lo <= i && i < hi {
            bases.push(pp.powers_of_g[i]);
            scalars.push(poly.coef[k]);
            assert(bases@.drop_last() == old_bases);
            assert(scalars@.drop_last() == old_scalars);
        }
        k = k + 1;
    }
    assert(poly.idx@.take(k as int) == poly.idx@);
    assert(poly.coef@.take(k as int) == poly.coef@);
    (bases, scalars)
}

impl Commitment {
    /// Commits to the polynomial whose coefficient of `x^k` is `polynomial[k]`.
    pub fn new(pp: &PublicParameters, polynomial: &Vec<Scalar>) -> (r: Result<Commitment, Error>)
        requires
            pp.wf(),
            all_scalars_wf(polynomial@),
        ensures
            dense_commit_outcome(pp, polynomial@, r),
    {
        let p = dense_to_sparse(polynomial);
        proof {
            let n = pp.g1().len() as int;
            if polynomial@.len() > n {
                assert(p.idx@[n] == n);
            }
        }
        Commitment::new_sparse(pp, &p)
    }

    pub fn new_sparse(pp: &PublicParameters, poly: &SparsePoly) -> (r: Result<Commitment, Error>)
        requires
            pp.wf(),
            all_scalars_wf(poly.coef@),
        ensures
            commit_outcome(pp, poly, r),
    {
        if poly.idx.len() != poly.coef.len() {
            return Err(Error::MalformedPoly);
        }
        let n = pp.powers_of_g.len();
        if !indices_in_range(poly, n) {
            return Err(Error::IndexOutOfRange);
        }
        let (bases, scalars) = gather(pp, poly, 0, n);
        Ok(Commitment(g1_msm(&bases, &scalars)))
    }

    /// The commitment to the empty polynomial.
    pub fn identity() -> (r: Commitment)
        ensures
            r.0.wf(),
            r.0.log() == 0,
    {
        Commitment(g1_identity())
    }
}

/// Whether two encodings hold the same bytes.
fn same_encoding(a: &[u8; 48], b: &[u8; 48]) -> (r: bool)
    ensures
        r == (a@ == b@),
{
    let mut k: usize = 0;
    while k < 48
        invariant
            k <= 48,
            a@.len() == 48,
            b@.len() == 48,
            forall|j: int| 0 <= j < k ==> a@[j] == b@[j],
        decreases 48 - k,
    {
        if a[k] != b[k] {
            return false;
        }
        k = k + 1;
    }
    assert(a@ =~= b@);
    true
}

impl PartialEq for Commitment {
    fn eq(&self, other: &Commitment) -> (r: bool) {
        same_encoding(&self.0.bytes, &other.0.bytes)
    }
}

impl vstd::std_specs::cmp::PartialEqSpecImpl for Commitment {
    open spec fn obeys_eq_spec() -> bool {
        true
    }

    open spec fn eq_spec(&self, other: &Commitment) -> bool {
        self.0.bytes@ == other.0.bytes@
    }
}

impl Eq for Commitment {
}

impl Default for Commitment {
    /// The identity, which the empty polynomial commits to.
    fn default() -> (r: Commitment)
        ensures
            r.0.wf(),
            r.0.log() == 0,
    {
        Commitment::identity()
    }
}

impl PointProof {
    /// Opens the polynomial whose coefficient of `x^k` is `polynomial[k]` at `index`.
    pub fn new(pp: &PublicParameters, polynomial: &Vec<Scalar>, index: usize) -> (r: Result<PointProof, Error>)
        requires
            pp.wf(),
            all_scalars_wf(polynomial@),
        ensures
            dense_prove_outcome(pp, polynomial@, index as int, r),
    {
        let p = dense_to_sparse(polynomial);
        proof {
            let n = pp.g1().len() as int;
            if polynomial@.len() > n {
                assert(p.idx@[n] == n);
            }
        }
        PointProof::new_sparse(pp, &p, index)
    }

    pub fn new_sparse(pp: &PublicParameters, poly: &SparsePoly, index: usize) -> (r: Result<
        PointProof,
        Error,
    >)
        requires
            pp.wf(),
            all_scalars_wf(poly.coef@),
        ensures
            prove_outcome(pp, poly, index as int, r),
    {
        if poly.idx.len() != poly.coef.len() {
            return Err(Error::MalformedPoly);
        }
        let n = pp.powers_of_g.len();
        if index >= n || !indices_in_range(poly, n) {
            return Err(Error::IndexOutOfRange);
        }
        let (lb, ls) = gather(pp, poly, 0, index);
        let (rb, rs) = gather(pp, poly, index + 1, n);
        Ok(PointProof(g1_msm(&lb, &ls), g1_msm(&rb, &rs)))
    }

    /// Accepts exactly when `index` is in range and the commitment equals
    /// `value * g^index + L + R`.
    #[verifier::rlimit(40)]
    pub fn verify(&self, pp: &PublicParameters, commitment: &Commitment, index: usize, value: &Scalar) -> (r: Result<(), Error>)
        requires
            pp.wf(),
            self.0.wf(),
            self.1.wf(),
            commitment.0.wf(),
            value.wf(),
        ensures
            r is Ok <==> verify_accepts(pp, commitment, index as int, value.value(), self),
            r is Err ==> r == Err::<(), Error>(Error::VerifyReject),
    {
        if index >= pp.powers_of_g.len() {
            return Err(Error::VerifyReject);
        }
        let g = pp.powers_of_g[index];
        let t = g1_mul(&g, value);
        let u = g1_add(&t, &self.0);
        let expected = g1_add(&u, &self.1);
        proof {
            let m = modulus();
            let a = g.log() * value.value();
            lemma_add_mod_noop(a, self.0.log(), m);
            lemma_mod_twice(a, m);
            lemma_add_mod_noop(a + self.0.log(), self.1.log(), m);
            lemma_mod_twice(a + self.0.log(), m);
        }
        if g1_eq(&commitment.0, &expected) {
            Ok(())
        } else {
            Err(Error::VerifyReject)
        }
    }
}

/// The verifier's equation, over multiples of the generator.
pub open spec fn verify_accepts(pp: &PublicParameters, c: &Commitment, i: int, v: int, proof: &PointProof) -> bool {
    &&& 0 <= i < pp.g1().len()
    &&& c.0.log() == (pp.g1()[i].log() * v + proof.0.log() + proof.1.log()) % modulus()
}

} // verus!
