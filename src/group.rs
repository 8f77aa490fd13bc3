use vstd::prelude::*;
use crate::field::{modulus, Scalar};
use ark_bls12_381::{Bls12_381, Fr, G1Affine, G1Projective, G2Affine};
use ark_ec::pairing::Pairing;
use ark_ec::{AffineRepr, CurveGroup, VariableBaseMSM};
use ark_ff::{BigInt, PrimeField, Zero};
use ark_serialize::{CanonicalDeserialize, CanonicalSerialize};

verus! {

/// Whether `G1Affine::deserialize_compressed` accepts the bytes: the
/// compression flag is set, and either the infinity flag is set (whatever
/// the other bits hold) or they give an x-coordinate below the field
/// modulus of a point on the curve in the prime-order subgroup.
pub uninterp spec fn g1_valid(b: Seq<u8>) -> bool;

/// The discrete logarithm, to the base of G1's standard generator, of the
/// point that a valid encoding holds. Group operations are stated over it.
pub uninterp spec fn g1_log(b: Seq<u8>) -> int;

/// Whether `G2Affine::deserialize_compressed` accepts the bytes, as for G1.
pub uninterp spec fn g2_valid(b: Seq<u8>) -> bool;

/// The discrete logarithm, to the base of G2's standard generator, of the
/// point that a valid encoding holds.
pub uninterp spec fn g2_log(b: Seq<u8>) -> int;

/// A point of G1, held as its 48-byte compressed encoding.
#[derive(Clone, Copy, Debug)]
pub struct G1Point {
    pub bytes: [u8; 48],
}

/// A point of G2, held as its 96-byte compressed encoding.
#[derive(Clone, Copy, Debug)]
pub struct G2Point {
    pub bytes: [u8; 96],
}

/// Whether the infinity flag (bit 6 of the first byte) is set.
pub open spec fn has_infinity_flag(b: Seq<u8>) -> bool {
    (b[0] / 64) % 2 == 1
}

/// The one encoding of the identity: `0xC0` followed by zeros.
pub open spec fn is_identity_encoding(b: Seq<u8>) -> bool {
    b[0] == 0xC0 && forall|k: int| 1 <= k < b.len() ==> b[k] == 0
}

/// An encoding with the infinity flag is canonical only as the identity's own.
pub open spec fn canonical_encoding(b: Seq<u8>) -> bool {
    has_infinity_flag(b) ==> is_identity_encoding(b)
}

/// What the library reads as a G1 point: an encoding that arkworks accepts
/// and that is canonical.
pub open spec fn g1_accepts(b: Seq<u8>) -> bool {
    b.len() == 48 && g1_valid(b) && canonical_encoding(b)
}

/// What the library reads as a G2 point.
pub open spec fn g2_accepts(b: Seq<u8>) -> bool {
    b.len() == 96 && g2_valid(b) && canonical_encoding(b)
}

/// Whether a non-empty encoding is canonical in the sense above.
fn is_canonical_encoding(b: &[u8]) -> (r: bool)
    requires
        b@.len() > 0,
    ensures
        r == canonical_encoding(b@),
{
    if (b[0] / 64) % 2 != 1 {
        return true;
    }
    if b[0] != 0xC0 {
        return false;
    }
    let mut k: usize = 1;
    while k < b.len()
        invariant
            1 <= k <= b@.len(),
            b@[0] == 0xC0,
            forall|j: int| 1 <= j < k ==> b@[j] == 0,
        decreases b@.len() - k,
    {
        if b[k] != 0 {
            return false;
        }
        k = k + 1;
    }
    true
}

/// Reads a G1 point: `None` unless the bytes are a canonical encoding that
/// arkworks accepts.
pub fn decode_g1(b: &[u8]) -> (r: Option<G1Point>)
    ensures
        r is Some <==> g1_accepts(b@),
        r is Some ==> r.unwrap().bytes@ == b@ && r.unwrap().wf(),
{
    if b.len() != 48 || !is_canonical_encoding(b) {
        return None;
    }
    g1_decode(b)
}

/// Reads a G2 point, as `decode_g1` does.
pub fn decode_g2(b: &[u8]) -> (r: Option<G2Point>)
    ensures
        r is Some <==> g2_accepts(b@),
        r is Some ==> r.unwrap().bytes@ == b@ && r.unwrap().wf(),
{
    if b.len() != 96 || !is_canonical_encoding(b) {
        return None;
    }
    g2_decode(b)
}

impl G1Point {
    /// Accepted by arkworks, and canonical: arkworks writes the identity as
    /// `0xC0` followed by zeros.
    pub open spec fn wf(&self) -> bool {
        g1_valid(self.bytes@) && canonical_encoding(self.bytes@)
    }

    /// The point as a multiple of the generator, reduced modulo the group order.
    pub open spec fn log(&self) -> int {
        g1_log(self.bytes@) % modulus()
    }
}

impl G2Point {
    pub open spec fn wf(&self) -> bool {
        g2_valid(self.bytes@) && canonical_encoding(self.bytes@)
    }

    pub open spec fn log(&self) -> int {
        g2_log(self.bytes@) % modulus()
    }
}

/// Sum of `scalars[k] * bases[k]` as a multiple of the generator.
pub open spec fn msm_value(bases: Seq<G1Point>, scalars: Seq<Scalar>) -> int
    decreases bases.len(),
{
    if bases.len() == 0 || scalars.len() == 0 {
        0
    } else {
        msm_value(bases.drop_last(), scalars.drop_last()) + bases.last().log()
            * scalars.last().value()
    }
}

pub open spec fn all_points_wf(s: Seq<G1Point>) -> bool {
    forall|k: int| 0 <= k < s.len() ==> (#[trigger] s[k]).wf()
}

pub open spec fn all_scalars_wf(s: Seq<Scalar>) -> bool {
    forall|k: int| 0 <= k < s.len() ==> (#[trigger] s[k]).wf()
}

/// Relies on `G1Affine::generator`: the standard generator, whose logarithm is one.
#[verifier::external_body]
pub(crate) fn g1_generator() -> (r: G1Point)
    ensures
        r.wf(),
        g1_log(r.bytes@) % modulus() == 1,
{
    let mut out = [0u8; 48];
    G1Affine::generator().serialize_compressed(&mut out[..]).expect("48 bytes");
    G1Point { bytes: out }
}

/// Relies on `G1Affine::zero`: the identity of G1.
#[verifier::external_body]
pub(crate) fn g1_identity() -> (r: G1Point)
    ensures
        r.wf(),
        g1_log(r.bytes@) % modulus() == 0,
{
    let mut out = [0u8; 48];
    G1Affine::zero().serialize_compressed(&mut out[..]).expect("48 bytes");
    G1Point { bytes: out }
}

/// Relies on `G1Affine * Fr` and `into_affine`: scalar multiplication in G1.
#[verifier::external_body]
pub(crate) fn g1_mul(p: &G1Point, s: &Scalar) -> (r: G1Point)
    requires
        p.wf(),
        s.wf(),
    ensures
        r.wf(),
        g1_log(r.bytes@) % modulus() == (p.log() * s.value()) % modulus(),
{
    let a = G1Affine::deserialize_compressed_unchecked(&p.bytes[..]).expect("valid point");
    let x = Fr::from_bigint(BigInt::new([s.l0, s.l1, s.l2, s.l3])).expect("canonical");
    let mut out = [0u8; 48];
    (a * x).into_affine().serialize_compressed(&mut out[..]).expect("48 bytes");
    G1Point { bytes: out }
}

/// Relies on `G1Affine + G1Affine` and `into_affine`: the group operation of G1.
#[verifier::external_body]
pub(crate) fn g1_add(p: &G1Point, q: &G1Point) -> (r: G1Point)
    requires
        p.wf(),
        q.wf(),
    ensures
        r.wf(),
        g1_log(r.bytes@) % modulus() == (p.log() + q.log()) % modulus(),
{
    let a = G1Affine::deserialize_compressed_unchecked(&p.bytes[..]).expect("valid point");
    let b = G1Affine::deserialize_compressed_unchecked(&q.bytes[..]).expect("valid point");
    let mut out = [0u8; 48];
    (a + b).into_affine().serialize_compressed(&mut out[..]).expect("48 bytes");
    G1Point { bytes: out }
}

/// Relies on `G1Projective::msm_unchecked`: the inner product of the scalars
/// with the bases, for slices of equal length.
#[verifier::external_body]
pub(crate) fn g1_msm(bases: &Vec<G1Point>, scalars: &Vec<Scalar>) -> (r: G1Point)
    requires
        bases@.len() == scalars@.len(),
        all_points_wf(bases@),
        all_scalars_wf(scalars@),
    ensures
        r.wf(),
        g1_log(r.bytes@) % modulus() == msm_value(bases@, scalars@) % modulus(),
{
    let b: Vec<G1Affine> = bases
        .iter()
        .map(|p| G1Affine::deserialize_compressed_unchecked(&p.bytes[..]).expect("valid point"))
        .collect();
    let s: Vec<Fr> = scalars
        .iter()
        .map(|s| Fr::from_bigint(BigInt::new([s.l0, s.l1, s.l2, s.l3])).expect("canonical"))
        .collect();
    let mut out = [0u8; 48];
    G1Projective::msm_unchecked(&b, &s).into_affine().serialize_compressed(&mut out[..]).expect(
        "48 bytes",
    );
    G1Point { bytes: out }
}

/// Relies on `==` of `G1Affine`: two valid points are equal exactly when
/// they are the same multiple of the generator.
#[verifier::external_body]
pub(crate) fn g1_eq(p: &G1Point, q: &G1Point) -> (r: bool)
    requires
        p.wf(),
        q.wf(),
    ensures
        r == (p.log() == q.log()),
{
    let a = G1Affine::deserialize_compressed_unchecked(&p.bytes[..]).expect("valid point");
    let b = G1Affine::deserialize_compressed_unchecked(&q.bytes[..]).expect("valid point");
    a == b
}

/// Relies on `G1Affine::deserialize_compressed`, which checks the flags, that
/// the x-coordinate is below the field modulus, and that the point is on the
/// curve and in the subgroup (an infinity flag gives the identity at once).
#[verifier::external_body]
pub(crate) fn g1_decode(b: &[u8]) -> (r: Option<G1Point>)
    requires
        b@.len() == 48,
    ensures
        r.is_some() == g1_valid(b@),
        r.is_some() ==> r.unwrap().bytes@ == b@,
{
    match G1Affine::deserialize_compressed(b) {
        Ok(_) => Some(G1Point { bytes: b.try_into().expect("48 bytes") }),
        Err(_) => None,
    }
}

/// Relies on `G2Affine::generator`: the standard generator of G2.
#[verifier::external_body]
pub(crate) fn g2_generator() -> (r: G2Point)
    ensures
        r.wf(),
        g2_log(r.bytes@) % modulus() == 1,
{
    let mut out = [0u8; 96];
    G2Affine::generator().serialize_compressed(&mut out[..]).expect("96 bytes");
    G2Point { bytes: out }
}

/// Relies on `G2Affine * Fr` and `into_affine`: scalar multiplication in G2.
#[verifier::external_body]
pub(crate) fn g2_mul(p: &G2Point, s: &Scalar) -> (r: G2Point)
    requires
        p.wf(),
        s.wf(),
    ensures
        r.wf(),
        g2_log(r.bytes@) % modulus() == (p.log() * s.value()) % modulus(),
{
    let a = G2Affine::deserialize_compressed_unchecked(&p.bytes[..]).expect("valid point");
    let x = Fr::from_bigint(BigInt::new([s.l0, s.l1, s.l2, s.l3])).expect("canonical");
    let mut out = [0u8; 96];
    (a * x).into_affine().serialize_compressed(&mut out[..]).expect("96 bytes");
    G2Point { bytes: out }
}

/// Relies on `G2Affine::deserialize_compressed`, with the same checks as for G1.
#[verifier::external_body]
pub(crate) fn g2_decode(b: &[u8]) -> (r: Option<G2Point>)
    requires
        b@.len() == 96,
    ensures
        r.is_some() == g2_valid(b@),
        r.is_some() ==> r.unwrap().bytes@ == b@,
{
    match G2Affine::deserialize_compressed(b) {
        Ok(_) => Some(G2Point { bytes: b.try_into().expect("96 bytes") }),
        Err(_) => None,
    }
}

/// Relies on `Bls12_381::multi_pairing`: e(aG, bH) * e(-cG, dH) is the
/// identity of the target group exactly when a * b and c * d agree modulo
/// the order (bilinearity and non-degeneracy).
#[verifier::external_body]
pub(crate) fn pairings_equal(p: &G1Point, q: &G2Point, s: &G1Point, t: &G2Point) -> (r: bool)
    requires
        p.wf(),
        q.wf(),
        s.wf(),
        t.wf(),
    ensures
        r == ((p.log() * q.log()) % modulus() == (s.log() * t.log()) % modulus()),
{
    let a = G1Affine::deserialize_compressed_unchecked(&p.bytes[..]).expect("valid point");
    let b = G2Affine::deserialize_compressed_unchecked(&q.bytes[..]).expect("valid point");
    let c = G1Affine::deserialize_compressed_unchecked(&s.bytes[..]).expect("valid point");
    let d = G2Affine::deserialize_compressed_unchecked(&t.bytes[..]).expect("valid point");
    Bls12_381::multi_pairing([a, -c], [b, d]).is_zero()
}

} // verus!
