use vstd::prelude::*;
use vstd::arithmetic::div_mod::{lemma_mul_mod_noop_left, lemma_mul_mod_noop_right, lemma_small_mod};
use vstd::arithmetic::power::{lemma_pow0, lemma_pow_adds, pow};
use vstd::arithmetic::power2::{lemma2_to64, lemma_pow2_adds, lemma_pow2_strictly_increases, pow2};
use crate::commitment::{Error, PublicParameters};
use crate::field::{modulus, random_bytes, Scalar};
use crate::group::{g1_eq, g1_generator, g1_identity, g1_mul, g2_generator, g2_mul, pairings_equal, G1Point, G2Point};
use crate::laws::lemma_pairing_ladder;

verus! {

/// Largest `D` for which `setup` builds `2^D` powers.
pub const MAX_LOG_DEGREE: usize = 28;

/// The powers in G1 are computed one by one up to this many; the rest are
/// shifted copies of this first block.
pub const CHUNK_SIZE: usize = 4096;

/// Number of powers in G2.
pub const G2_POWERS: usize = 65;

impl PublicParameters {
    /// The parameters hold the powers `tau^i` of one secret, in both groups.
    pub open spec fn is_powers_of(&self, tau: int) -> bool {
        &&& forall|i: int| 0 <= i < self.g1().len() ==> (#[trigger] self.g1()[i]).log() == pow(tau, i as nat) % modulus()
        &&& forall|i: int| 0 <= i < self.g2().len() ==> (#[trigger] self.g2()[i]).log() == pow(tau, i as nat) % modulus()
    }

    /// Builds the powers of the secret `tau`: `2^log_degree` of them in G1
    /// and `G2_POWERS` in G2. A zero secret is refused, and so are parameters
    /// with the identity among the G1 powers.
    pub fn new(tau: &Scalar, log_degree: usize) -> (r: Result<PublicParameters, Error>)
        requires
            tau.wf(),
        ensures
            setup_outcome(tau.value(), log_degree, r),
    {
        if log_degree > MAX_LOG_DEGREE {
            return Err(Error::DegreeTooLarge);
        }
        if tau.is_zero() {
            return Err(Error::RngFailure);
        }
        let pp = build_powers(tau, log_degree);
        let id = g1_identity();
        let mut i: usize = 0;
        while i < pp.powers_of_g.len()
            invariant
                pp.wf(),
                id.wf(),
                id.log() == 0,
                pp.is_powers_of(tau.value()),
                pp.g1().len() == pow2(log_degree as nat),
                pp.g2().len() == G2_POWERS,
                tau.value() != 0,
                log_degree <= MAX_LOG_DEGREE,
                i <= pp.g1().len(),
                forall|j: int| 0 <= j < i ==> (#[trigger] pp.g1()[j]).log() != 0,
            decreases pp.g1().len() - i,
        {
            if g1_eq(&pp.powers_of_g[i], &id) {
                proof {
                    let k = i as int;
                    assert(pow(tau.value(), k as nat) % modulus() == 0);
                    assert(exists|j: int| 0 <= j < pow2(log_degree as nat) && #[trigger] (pow(tau.value(), j as nat) % modulus()) == 0);
                }
                return Err(Error::DegenerateSetup);
            }
            i = i + 1;
        }
        proof {
            assert forall|j: int| 0 <= j < pow2(log_degree as nat) implies #[trigger] (pow(tau.value(), j as nat) % modulus()) != 0 by {
                assert(pp.g1()[j].log() != 0);
            }
        }
        Ok(pp)
    }
}

/// What `new` gives for the secret `tau`.
pub open spec fn setup_outcome(tau: int, log_degree: usize, r: Result<PublicParameters, Error>) -> bool {
    if log_degree > MAX_LOG_DEGREE {
        r == Err::<PublicParameters, Error>(Error::DegreeTooLarge)
    } else if tau == 0 {
        r == Err::<PublicParameters, Error>(Error::RngFailure)
    } else if exists|i: int| 0 <= i < pow2(log_degree as nat) && #[trigger] (pow(tau, i as nat) % modulus()) == 0 {
        r == Err::<PublicParameters, Error>(Error::DegenerateSetup)
    } else {
        &&& r is Ok
        &&& r.unwrap().wf()
        &&& r.unwrap().g1().len() == pow2(log_degree as nat)
        &&& r.unwrap().g2().len() == G2_POWERS
        &&& r.unwrap().is_powers_of(tau)
        &&& forall|i: int| 0 <= i < r.unwrap().g1().len() ==> (#[trigger] r.unwrap().g1()[i]).log() != 0
    }
}

/// The powers of `tau`, computed in two phases: one by one up to
/// `CHUNK_SIZE`, then as shifted copies of that first block.
fn build_powers(tau: &Scalar, log_degree: usize) -> (r: PublicParameters)
    requires
        tau.wf(),
        log_degree <= MAX_LOG_DEGREE,
    ensures
        r.wf(),
        r.g1().len() == pow2(log_degree as nat),
        r.g2().len() == G2_POWERS,
        r.is_powers_of(tau.value()),
{
    {
        let n = power_of_two(log_degree);
        let ghost t = tau.value();
        let ghost m = modulus();
        let mut g1: Vec<G1Point> = Vec::new();
        let first = g1_generator();
        proof {
            lemma_pow0(t);
            lemma_small_mod(1, m as nat);
        }
        g1.push(first);
        proof {
            vstd::arithmetic::power2::lemma_pow2_pos(log_degree as nat);
        }
        let seed_len = if n < CHUNK_SIZE { n } else { CHUNK_SIZE };
        let mut i: usize = 1;
        while i < seed_len
            invariant
                tau.wf(),
                t == tau.value(),
                1 <= i <= seed_len <= CHUNK_SIZE,
                g1@.len() == i,
                forall|k: int| 0 <= k < i ==> (#[trigger] g1@[k]).wf(),
                forall|k: int| 0 <= k < i ==> (#[trigger] g1@[k]).log() == pow(t, k as nat) % modulus(),
            decreases seed_len - i,
        {
            let prev = g1[i - 1];
            let next = g1_mul(&prev, tau);
            proof {
                lemma_step(t, (i - 1) as nat);
                assert(((i - 1) as nat + 1) as nat == i as nat);
            }
            g1.push(next);
            assert(g1@[i as int] == next);
            i = i + 1;
        }
        proof {
            lemma2_to64();
        }
        if log_degree > 12 {
            let chunks = power_of_two(log_degree - 12);
            proof {
                lemma_pow2_adds((log_degree - 12) as nat, 12);
            }
            let mut j: usize = 1;
            while j < chunks
                invariant
                    tau.wf(),
                    t == tau.value(),
                    n == chunks * 4096,
                    1 <= j <= chunks,
                    g1@.len() == j * 4096,
                    forall|k: int| 0 <= k < g1@.len() ==> (#[trigger] g1@[k]).wf(),
                    forall|k: int| 0 <= k < g1@.len() ==> (#[trigger] g1@[k]).log() == pow(t, k as nat) % modulus(),
                decreases chunks - j,
            {
                assert(j * 4096 <= chunks * 4096) by (nonlinear_arith)
                    requires j <= chunks;
                let start = j * CHUNK_SIZE;
                let shift = tau.pow(start as u64);
                assert(start as u64 as nat == start as nat);
                let mut c: usize = 0;
                while c < CHUNK_SIZE
                    invariant
                        tau.wf(),
                        t == tau.value(),
                        1 <= j,
                        shift.wf(),
                        shift.value() == pow(t, start as nat) % modulus(),
                        start == j * 4096,
                        c <= 4096,
                        g1@.len() == start + c,
                        forall|k: int| 0 <= k < g1@.len() ==> (#[trigger] g1@[k]).wf(),
                        forall|k: int| 0 <= k < g1@.len() ==> (#[trigger] g1@[k]).log() == pow(t, k as nat) % modulus(),
                    decreases 4096 - c,
                {
                    assert(c < g1@.len());
                    let base = g1[c];
                    let next = g1_mul(&base, &shift);
                    proof {
                        lemma_shift(t, c as nat, start as nat);
                        assert((start + c) as nat == (start as nat + c as nat) as nat);
                    }
                    g1.push(next);
                    assert(g1@[start + c] == next);
                    c = c + 1;
                }
                assert(g1@.len() == (j + 1) * 4096);
                j = j + 1;
            }
        }
        let mut g2: Vec<G2Point> = Vec::new();
        let first2 = g2_generator();
        g2.push(first2);
        let mut i: usize = 1;
        while i < G2_POWERS
            invariant
                tau.wf(),
                t == tau.value(),
                1 <= i <= G2_POWERS,
                g2@.len() == i,
                forall|k: int| 0 <= k < i ==> (#[trigger] g2@[k]).wf(),
                forall|k: int| 0 <= k < i ==> (#[trigger] g2@[k]).log() == pow(t, k as nat) % modulus(),
            decreases G2_POWERS - i,
        {
            let prev = g2[i - 1];
            let next = g2_mul(&prev, tau);
            proof {
                lemma_step(t, (i - 1) as nat);
                assert(((i - 1) as nat + 1) as nat == i as nat);
            }
            g2.push(next);
            assert(g2@[i as int] == next);
            i = i + 1;
        }
        PublicParameters { powers_of_g: g1, powers_of_g2: g2 }
    }
}

impl PublicParameters {
    /// Draws a secret from the operating system's generator and builds its
    /// powers with `new`; `RngFailure` where the generator refuses.
    pub fn generate(log_degree: usize) -> (r: Result<PublicParameters, Error>)
        ensures
            log_degree > MAX_LOG_DEGREE ==> r == Err::<PublicParameters, Error>(Error::DegreeTooLarge),
            log_degree <= MAX_LOG_DEGREE ==> r == Err::<PublicParameters, Error>(Error::RngFailure)
                || exists|tau: int| 0 <= tau < modulus() && #[trigger] setup_outcome(tau, log_degree, r),
    {
        if log_degree > MAX_LOG_DEGREE {
            return Err(Error::DegreeTooLarge);
        }
        match random_bytes() {
            None => Err(Error::RngFailure),
            Some(bytes) => {
                let tau = Scalar::from_le_bytes_mod_order(&bytes);
                let r = PublicParameters::new(&tau, log_degree);
                assert(setup_outcome(tau.value(), log_degree, r));
                r
            },
        }
    }
}

impl PublicParameters {
    /// Whether `e(g1[i], g2[1]) == e(g1[i + 1], g2[0])`; it holds on
    /// parameters that are the powers of one secret.
    pub fn pairing_ladder_holds(&self, i: usize) -> (r: bool)
        requires
            self.wf(),
            i + 1 < self.g1().len(),
            2 <= self.g2().len(),
        ensures
            r == ((self.g1()[i as int].log() * self.g2()[1].log()) % modulus() == (self.g1()[i + 1].log()
                * self.g2()[0].log()) % modulus()),
            (exists|tau: int| #[trigger] self.is_powers_of(tau)) ==> r,
    {
        proof {
            if exists|tau: int| #[trigger] self.is_powers_of(tau) {
                let tau = choose|tau: int| #[trigger] self.is_powers_of(tau);
                lemma_pairing_ladder(self, tau, i as int);
            }
        }
        let n = self.powers_of_g.len();
        assert(i + 1 < n);
        pairings_equal(&self.powers_of_g[i], &self.powers_of_g2[1], &self.powers_of_g[i + 1], &self.powers_of_g2[0])
    }
}

/// `2^d` for `d` up to `MAX_LOG_DEGREE`.
fn power_of_two(d: usize) -> (r: usize)
    requires
        d <= MAX_LOG_DEGREE,
    ensures
        r == pow2(d as nat),
{
    proof {
        lemma2_to64();
    }
    let mut r: usize = 1;
    let mut e: usize = 0;
    while e < d
        invariant
            e <= d <= MAX_LOG_DEGREE,
            r == pow2(e as nat),
        decreases d - e,
    {
        proof {
            lemma2_to64();
            if e < 28 {
                lemma_pow2_strictly_increases(e as nat, 28);
            }
            lemma_pow2_adds(e as nat, 1);
        }
        r = r * 2;
        e = e + 1;
    }
    r
}

proof fn lemma_step(t: int, k: nat)
    ensures
        ((pow(t, k) % modulus()) * t) % modulus() == pow(t, k + 1) % modulus(),
{
    lemma_mul_mod_noop_left(pow(t, k), t, modulus());
    lemma_pow_adds(t, k, 1);
    vstd::arithmetic::power::lemma_pow1(t);
}

proof fn lemma_shift(t: int, c: nat, start: nat)
    ensures
        ((pow(t, c) % modulus()) * (pow(t, start) % modulus())) % modulus() == pow(t, start + c) % modulus(),
{
    let m = modulus();
    lemma_mul_mod_noop_left(pow(t, c), pow(t, start) % m, m);
    lemma_mul_mod_noop_right(pow(t, c), pow(t, start), m);
    lemma_pow_adds(t, c, start);
}

} // verus!
