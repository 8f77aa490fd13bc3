use vstd::prelude::*;
use ark_bls12_381::Fr;
use ark_ff::{BigInt, Field, PrimeField};
use rand::RngCore;
use vstd::arithmetic::power::pow;

verus! {

/// The prime order of the scalar field of BLS12-381, which is also the order
/// of the groups G1 and G2.
pub open spec fn modulus() -> int {
    52435875175126190479447740508185965837690552500527637822603658699938581184513int
}

pub open spec fn limbs_value(l0: u64, l1: u64, l2: u64, l3: u64) -> int {
    l0 as int + l1 as int * 0x1_0000_0000_0000_0000int
        + l2 as int * 0x1_0000_0000_0000_0000_0000_0000_0000_0000int
        + l3 as int * 0x1_0000_0000_0000_0000_0000_0000_0000_0000_0000_0000_0000_0000int
}

/// An element of the scalar field, held as its canonical little-endian
/// 64-bit limbs.
#[derive(Clone, Copy, Debug, PartialEq, Eq, Structural)]
pub struct Scalar {
    pub l0: u64,
    pub l1: u64,
    pub l2: u64,
    pub l3: u64,
}

impl Scalar {
    /// The integer in `[0, modulus())` that this element stands for.
    pub open spec fn value(&self) -> int {
        limbs_value(self.l0, self.l1, self.l2, self.l3)
    }

    pub open spec fn wf(&self) -> bool {
        self.value() < modulus()
    }

    pub fn zero() -> (r: Scalar)
        ensures
            r.wf(),
            r.value() == 0,
    {
        Scalar { l0: 0, l1: 0, l2: 0, l3: 0 }
    }

    pub fn from_u64(x: u64) -> (r: Scalar)
        ensures
            r.wf(),
            r.value() == x as int,
    {
        Scalar { l0: x, l1: 0, l2: 0, l3: 0 }
    }

    pub fn is_zero(&self) -> (r: bool)
        ensures
            r == (self.value() == 0),
    {
        let r = self.l0 == 0 && self.l1 == 0 && self.l2 == 0 && self.l3 == 0;
        proof {
                        assert(self.l1 as int * 0x1_0000_0000_0000_0000int >= 0) by (nonlinear_arith);
            assert(self.l2 as int * 0x1_0000_0000_0000_0000_0000_0000_0000_0000int >= 0)
                by (nonlinear_arith);
            assert(self.l3 as int * 0x1_0000_0000_0000_0000_0000_0000_0000_0000_0000_0000_0000_0000int
                >= 0) by (nonlinear_arith);
            if !r {
                if self.l1 != 0 {
                    assert(self.l1 as int * 0x1_0000_0000_0000_0000int > 0) by (nonlinear_arith)
                        requires self.l1 != 0;
                }
                if self.l2 != 0 {
                    assert(self.l2 as int * 0x1_0000_0000_0000_0000_0000_0000_0000_0000int > 0)
                        by (nonlinear_arith)
                        requires self.l2 != 0;
                }
                if self.l3 != 0 {
                    assert(self.l3 as int
                        * 0x1_0000_0000_0000_0000_0000_0000_0000_0000_0000_0000_0000_0000int > 0)
                        by (nonlinear_arith)
                        requires self.l3 != 0;
                }
            }
        }
        r
    }

    /// Field addition.
    pub fn add(&self, other: &Scalar) -> (r: Scalar)
        requires
            self.wf(),
            other.wf(),
        ensures
            r.wf(),
            r.value() == (self.value() + other.value()) % modulus(),
    {
        fr_add(self, other)
    }

    /// The element that little-endian bytes give, reduced modulo the order.
    pub fn from_le_bytes_mod_order(b: &[u8; 64]) -> (r: Scalar)
        ensures
            r.wf(),
            r.value() == le_bytes_value(b@) % modulus(),
    {
        fr_from_le_bytes(b)
    }

    /// The element raised to the power `e`.
    pub fn pow(&self, e: u64) -> (r: Scalar)
        requires
            self.wf(),
        ensures
            r.wf(),
            r.value() == pow(self.value(), e as nat) % modulus(),
    {
        fr_pow(self, e)
    }
}

/// Relies on `Fr::from_bigint`, `+` on `Fr` and `Fr::into_bigint`: the sum of
/// two canonical elements, reduced modulo the field order, in canonical limbs.
#[verifier::external_body]
fn fr_add(a: &Scalar, b: &Scalar) -> (r: Scalar)
    requires
        a.wf(),
        b.wf(),
    ensures
        r.wf(),
        r.value() == (a.value() + b.value()) % modulus(),
{
    let x = Fr::from_bigint(BigInt::new([a.l0, a.l1, a.l2, a.l3])).expect("canonical");
    let y = Fr::from_bigint(BigInt::new([b.l0, b.l1, b.l2, b.l3])).expect("canonical");
    let s = (x + y).into_bigint().0;
    Scalar { l0: s[0], l1: s[1], l2: s[2], l3: s[3] }
}

/// Relies on `Field::pow` of `Fr`: exponentiation by a little-endian limb
/// sequence, here a single limb.
#[verifier::external_body]
fn fr_pow(a: &Scalar, e: u64) -> (r: Scalar)
    requires
        a.wf(),
    ensures
        r.wf(),
        r.value() == pow(a.value(), e as nat) % modulus(),
{
    let x = Fr::from_bigint(BigInt::new([a.l0, a.l1, a.l2, a.l3])).expect("canonical");
    let s = x.pow([e]).into_bigint().0;
    Scalar { l0: s[0], l1: s[1], l2: s[2], l3: s[3] }
}

/// Relies on `OsRng::try_fill_bytes`: 64 bytes from the operating system's
/// generator, or `None` where it refuses.
#[verifier::external_body]
pub(crate) fn random_bytes() -> (r: Option<[u8; 64]>) {
    let mut b = [0u8; 64];
    match rand::rngs::OsRng.try_fill_bytes(&mut b) {
        Ok(()) => Some(b),
        Err(_) => None,
    }
}

/// The number that little-endian bytes hold.
pub open spec fn le_bytes_value(b: Seq<u8>) -> int
    decreases b.len(),
{
    if b.len() == 0 {
        0
    } else {
        b[0] as int + 256 * le_bytes_value(b.drop_first())
    }
}

/// Relies on `PrimeField::from_le_bytes_mod_order`: the little-endian
/// integer of the bytes, reduced modulo the field order.
#[verifier::external_body]
fn fr_from_le_bytes(b: &[u8; 64]) -> (r: Scalar)
    ensures
        r.wf(),
        r.value() == le_bytes_value(b@) % modulus(),
{
    let s = Fr::from_le_bytes_mod_order(b).into_bigint().0;
    Scalar { l0: s[0], l1: s[1], l2: s[2], l3: s[3] }
}

} // verus!
