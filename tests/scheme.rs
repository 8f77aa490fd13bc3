use ark_bls12_381::{Fr, G1Affine};
use ark_ec::{AffineRepr, CurveGroup};
use ark_ff::{BigInteger, PrimeField};
use ark_serialize::{CanonicalDeserialize, CanonicalSerialize};
use dna_commit::commitment::{Commitment, Error, PointProof, PublicParameters};
use dna_commit::codec::verify_encoded;
use dna_commit::field::Scalar;
use dna_commit::poly::SparsePoly;
use rayon::iter::{IntoParallelIterator, ParallelIterator};

fn scalar(x: u64) -> Scalar {
    Scalar::from_u64(x)
}

fn poly(terms: &[(usize, u64)]) -> SparsePoly {
    let mut p = SparsePoly::new();
    for &(i, c) in terms {
        p.push(i, scalar(c));
    }
    p
}

fn multiple_of_generator(k: u64) -> Vec<u8> {
    let p = (G1Affine::generator() * Fr::from(k)).into_affine();
    let mut out = Vec::new();
    p.serialize_compressed(&mut out).unwrap();
    out
}

fn add_points(a: &[u8], b: &[u8]) -> Vec<u8> {
    let x = G1Affine::deserialize_compressed(a).unwrap();
    let y = G1Affine::deserialize_compressed(b).unwrap();
    let mut out = Vec::new();
    (x + y).into_affine().serialize_compressed(&mut out).unwrap();
    out
}

#[test]
fn test_crs() {
    let pp = PublicParameters::generate(13).unwrap();
    let failing: Vec<usize> = (1..pp.g1_len() - 1)
        .into_par_iter()
        .filter(|&i| !pp.pairing_ladder_holds(i))
        .collect();
    assert_eq!(failing, Vec::<usize>::new());
}

#[test]
fn pairing_ladder_fails_on_tampered_parameters() {
    let mut pp = PublicParameters::new(&scalar(5), 3).unwrap();
    assert!(pp.pairing_ladder_holds(2));
    pp.powers_of_g[3] = pp.powers_of_g[4];
    assert!(!pp.pairing_ladder_holds(2));
    assert!(!pp.pairing_ladder_holds(3));
    assert!(pp.pairing_ladder_holds(4));
}

#[test]
fn setup_with_known_secret_gives_its_powers() {
    let pp = PublicParameters::new(&scalar(7), 3).unwrap();
    assert_eq!(pp.g1_len(), 8);
    assert_eq!(pp.g2_len(), 65);
    let mut power = 1u64;
    for i in 0..8 {
        assert_eq!(pp.g1_power(i).bytes.to_vec(), multiple_of_generator(power));
        power *= 7;
    }
    let c = pp.commit_sparse(&poly(&[(0, 1), (2, 5)])).unwrap();
    assert_eq!(c.to_bytes(), multiple_of_generator(1 + 5 * 49));
}

#[test]
fn setup_rejects_too_large_degree() {
    assert!(matches!(PublicParameters::new(&scalar(7), 29), Err(Error::DegreeTooLarge)));
    assert!(matches!(PublicParameters::generate(40), Err(Error::DegreeTooLarge)));
    assert!(matches!(PublicParameters::new(&scalar(0), 3), Err(Error::RngFailure)));
    assert!(matches!(PublicParameters::new(&scalar(0), 29), Err(Error::DegreeTooLarge)));
}

#[test]
fn setup_above_one_chunk_keeps_the_ladder() {
    let pp = PublicParameters::new(&scalar(3), 13).unwrap();
    assert_eq!(pp.g1_len(), 8192);
    for i in [0usize, 1, 4094, 4095, 4096, 4097, 8000, 8190] {
        assert!(pp.pairing_ladder_holds(i));
    }
    let c = pp.commit_sparse(&poly(&[(4096, 1)])).unwrap();
    let d = pp.commit_sparse(&poly(&[(4095, 3)])).unwrap();
    assert_eq!(c.to_bytes(), d.to_bytes());
}

#[test]
fn open_present_index() {
    let pp = PublicParameters::generate(13).unwrap();
    let p = poly(&[(3, 2), (10, 1), (500, 2)]);
    let c = pp.commit_sparse(&p).unwrap();
    let proof = pp.prove_point_sparse(&p, 10).unwrap();
    assert!(proof.verify(&pp, &c, 10, &scalar(1)).is_ok());
    assert_eq!(proof.verify(&pp, &c, 10, &scalar(2)), Err(Error::VerifyReject));
}

#[test]
fn open_absent_index() {
    let pp = PublicParameters::generate(13).unwrap();
    let p = poly(&[(3, 2), (10, 1), (500, 2)]);
    let c = pp.commit_sparse(&p).unwrap();
    let proof = pp.prove_point_sparse(&p, 7).unwrap();
    assert!(proof.verify(&pp, &c, 7, &scalar(0)).is_ok());
    assert_eq!(proof.verify(&pp, &c, 7, &scalar(1)), Err(Error::VerifyReject));
}

#[test]
fn open_boundary_indices() {
    let pp = PublicParameters::generate(13).unwrap();
    let p = poly(&[(3, 2), (10, 1), (500, 2)]);
    let c = pp.commit_sparse(&p).unwrap();
    for i in [0usize, 8191] {
        let proof = pp.prove_point_sparse(&p, i).unwrap();
        assert!(proof.verify(&pp, &c, i, &scalar(0)).is_ok());
        assert_eq!(proof.verify(&pp, &c, i, &scalar(1)), Err(Error::VerifyReject));
    }
    let q = poly(&[(0, 4), (8191, 9)]);
    let cq = pp.commit_sparse(&q).unwrap();
    let low = pp.prove_point_sparse(&q, 0).unwrap();
    let high = pp.prove_point_sparse(&q, 8191).unwrap();
    assert!(low.verify(&pp, &cq, 0, &scalar(4)).is_ok());
    assert!(high.verify(&pp, &cq, 8191, &scalar(9)).is_ok());
    assert_eq!(low.0.bytes.to_vec(), Commitment::identity().to_bytes());
    assert_eq!(high.1.bytes.to_vec(), Commitment::identity().to_bytes());
}

#[test]
fn duplicate_indices_open_to_their_sum() {
    let pp = PublicParameters::new(&scalar(11), 4).unwrap();
    let p = poly(&[(5, 1), (2, 3), (5, 2)]);
    let c = pp.commit_sparse(&p).unwrap();
    let proof = pp.prove_point_sparse(&p, 5).unwrap();
    assert!(proof.verify(&pp, &c, 5, &scalar(3)).is_ok());
    assert_eq!(proof.verify(&pp, &c, 5, &scalar(2)), Err(Error::VerifyReject));
}

#[test]
fn verify_rejects_index_past_parameters() {
    let pp = PublicParameters::new(&scalar(5), 3).unwrap();
    let p = poly(&[(1, 1)]);
    let c = pp.commit_sparse(&p).unwrap();
    let proof = pp.prove_point_sparse(&p, 2).unwrap();
    assert_eq!(proof.verify(&pp, &c, 8, &scalar(0)), Err(Error::VerifyReject));
}

#[test]
fn empty_polynomial_commits_to_identity() {
    let pp = PublicParameters::new(&scalar(5), 3).unwrap();
    let c = pp.commit_sparse(&SparsePoly::new()).unwrap();
    let id = Commitment::identity();
    assert_eq!(c.to_bytes(), id.to_bytes());
    assert_eq!(Commitment::default().to_bytes(), id.to_bytes());
    let proof = PointProof(id.0, id.0);
    assert!(proof.verify(&pp, &id, 4, &scalar(0)).is_ok());
    assert_eq!(proof.verify(&pp, &id, 4, &scalar(1)), Err(Error::VerifyReject));
}

#[test]
fn commitments_add() {
    let pp = PublicParameters::new(&scalar(13), 4).unwrap();
    let p = poly(&[(1, 2), (4, 3)]);
    let q = poly(&[(4, 5), (9, 1)]);
    let sum = poly(&[(1, 2), (4, 8), (9, 1)]);
    let cp = pp.commit_sparse(&p).unwrap();
    let cq = pp.commit_sparse(&q).unwrap();
    let cs = pp.commit_sparse(&sum).unwrap();
    assert_eq!(add_points(&cp.to_bytes(), &cq.to_bytes()), cs.to_bytes());
}

#[test]
fn commit_errors() {
    let pp = PublicParameters::new(&scalar(5), 3).unwrap();
    let mut bad = poly(&[(1, 1)]);
    bad.idx.push(2);
    assert_eq!(pp.commit_sparse(&bad).unwrap_err(), Error::MalformedPoly);
    assert_eq!(pp.prove_point_sparse(&bad, 1).unwrap_err(), Error::MalformedPoly);
    let far = poly(&[(8, 1)]);
    assert_eq!(pp.commit_sparse(&far).unwrap_err(), Error::IndexOutOfRange);
    assert_eq!(pp.prove_point_sparse(&far, 1).unwrap_err(), Error::IndexOutOfRange);
    let near = poly(&[(7, 1)]);
    assert!(pp.commit_sparse(&near).is_ok());
    assert_eq!(pp.prove_point_sparse(&near, 8).unwrap_err(), Error::IndexOutOfRange);
}

#[test]
fn scalar_addition_wraps_at_the_order() {
    let minus_one = Scalar {
        l0: 0xffffffff00000000,
        l1: 0x53bda402fffe5bfe,
        l2: 0x3339d80809a1d805,
        l3: 0x73eda753299d7d48,
    };
    let sum = minus_one.add(&scalar(1));
    assert!(sum.is_zero());
    let three = scalar(1).add(&scalar(2));
    assert_eq!(three, scalar(3));
    assert_eq!(scalar(2).pow(10), scalar(1024));
    let mut bytes = [0u8; 64];
    bytes[1] = 1;
    bytes[0] = 7;
    assert_eq!(Scalar::from_le_bytes_mod_order(&bytes), scalar(263));
    let all = [0xffu8; 64];
    let expected = Fr::from_le_bytes_mod_order(&all).into_bigint().0;
    let got = Scalar::from_le_bytes_mod_order(&all);
    assert_eq!([got.l0, got.l1, got.l2, got.l3], expected);
}

#[test]
fn parameters_round_trip() {
    let pp = PublicParameters::new(&scalar(9), 3).unwrap();
    let bytes = pp.to_bytes();
    assert_eq!(bytes.len(), 16 + 48 * 8 + 96 * 65);
    assert_eq!(&bytes[0..8], &8u64.to_le_bytes());
    let back = PublicParameters::from_bytes(&bytes).unwrap();
    assert_eq!(back.to_bytes(), bytes);
    assert_eq!(PublicParameters::from_bytes(&bytes[..bytes.len() - 1]).unwrap_err(), Error::Deserialize);
    let mut longer = bytes.clone();
    longer.push(0);
    assert_eq!(PublicParameters::from_bytes(&longer).unwrap_err(), Error::Deserialize);
    let mut corrupt = bytes.clone();
    corrupt[8 + 48 + 5] ^= 0x40;
    assert_eq!(PublicParameters::from_bytes(&corrupt).unwrap_err(), Error::Deserialize);
    let mut corrupt_g2 = bytes.clone();
    let g2_start = 16 + 48 * 8;
    corrupt_g2[g2_start..g2_start + 96].copy_from_slice(&[0u8; 96]);
    assert_eq!(PublicParameters::from_bytes(&corrupt_g2).unwrap_err(), Error::Deserialize);
    let mut wrong_count = bytes.clone();
    wrong_count[0] = 7;
    assert_eq!(PublicParameters::from_bytes(&wrong_count).unwrap_err(), Error::Deserialize);
}

#[test]
fn commitment_and_proof_round_trip() {
    let pp = PublicParameters::new(&scalar(9), 3).unwrap();
    let p = poly(&[(1, 4), (6, 2)]);
    let c = pp.commit_sparse(&p).unwrap();
    let proof = pp.prove_point_sparse(&p, 3).unwrap();
    let cb = c.to_bytes();
    assert_eq!(cb.len(), 48);
    assert_eq!(Commitment::from_bytes(&cb).unwrap().to_bytes(), cb);
    let pb = proof.to_bytes();
    assert_eq!(pb.len(), 96);
    assert_eq!(PointProof::from_bytes(&pb).unwrap().to_bytes(), pb);
    assert_eq!(Commitment::from_bytes(&cb[..47]).unwrap_err(), Error::Deserialize);
    assert_eq!(PointProof::from_bytes(&pb[..95]).unwrap_err(), Error::Deserialize);
    let mut bad = cb.clone();
    bad[20] ^= 0x01;
    bad[30] ^= 0x10;
    assert!(Commitment::from_bytes(&bad).is_err() || Commitment::from_bytes(&bad).unwrap().to_bytes() == bad);
    let mut identity = vec![0u8; 48];
    identity[0] = 0xC0;
    assert_eq!(Commitment::from_bytes(&identity).unwrap().to_bytes(), Commitment::identity().to_bytes());
    let mut loose_identity = identity.clone();
    loose_identity[47] = 1;
    assert_eq!(Commitment::from_bytes(&loose_identity).unwrap_err(), Error::Deserialize);
    let mut flagged_identity = identity.clone();
    flagged_identity[0] = 0xE0;
    assert_eq!(Commitment::from_bytes(&flagged_identity).unwrap_err(), Error::Deserialize);
    let mut proof_bytes = identity.clone();
    proof_bytes.extend_from_slice(&loose_identity);
    assert_eq!(PointProof::from_bytes(&proof_bytes).unwrap_err(), Error::Deserialize);
    let mut off_curve = vec![0u8; 48];
    off_curve[0] = 0x80;
    off_curve[47] = 0x02;
    assert_eq!(Commitment::from_bytes(&off_curve).unwrap_err(), Error::Deserialize);
}

#[test]
fn insertion_keeps_canonical_form() {
    let mut p = SparsePoly::new();
    p.insert(5, scalar(1));
    p.insert(2, scalar(3));
    p.insert(5, scalar(2));
    p.insert(9, scalar(0));
    assert_eq!(p.idx, vec![2, 5]);
    assert_eq!(p.coef, vec![scalar(3), scalar(3)]);
    let minus_three = Scalar {
        l0: 0xfffffffefffffffe,
        l1: 0x53bda402fffe5bfe,
        l2: 0x3339d80809a1d805,
        l3: 0x73eda753299d7d48,
    };
    p.insert(5, minus_three);
    assert_eq!(p.idx, vec![2]);
    assert_eq!(p.coef, vec![scalar(3)]);
}

#[test]
fn sum_of_polynomials_commits_to_sum_of_commitments() {
    let pp = PublicParameters::new(&scalar(17), 4).unwrap();
    let mut p = SparsePoly::new();
    p.insert(1, scalar(2));
    p.insert(4, scalar(3));
    let q = poly(&[(4, 5), (9, 1), (1, 6)]);
    let s = p.sum(&q);
    assert_eq!(s.idx, vec![1, 4, 9]);
    assert_eq!(s.coef, vec![scalar(8), scalar(8), scalar(1)]);
    let cp = pp.commit_sparse(&p).unwrap();
    let cq = pp.commit_sparse(&q).unwrap();
    let cs = pp.commit_sparse(&s).unwrap();
    assert_eq!(add_points(&cp.to_bytes(), &cq.to_bytes()), cs.to_bytes());
}

#[test]
fn dense_polynomials() {
    let pp = PublicParameters::new(&scalar(7), 3).unwrap();
    let dense = vec![scalar(1), scalar(0), scalar(5)];
    let c = pp.commit(&dense).unwrap();
    assert_eq!(c.to_bytes(), multiple_of_generator(1 + 5 * 49));
    let c2 = Commitment::new(&pp, &dense).unwrap();
    assert_eq!(c2.to_bytes(), c.to_bytes());
    let proof = pp.prove_point(&dense, 2).unwrap();
    assert!(proof.verify(&pp, &c, 2, &scalar(5)).is_ok());
    assert_eq!(proof.verify(&pp, &c, 2, &scalar(4)), Err(Error::VerifyReject));
    let absent = PointProof::new(&pp, &dense, 6).unwrap();
    assert!(absent.verify(&pp, &c, 6, &scalar(0)).is_ok());
    let long = vec![scalar(1); 9];
    assert_eq!(pp.commit(&long).unwrap_err(), Error::IndexOutOfRange);
    assert_eq!(pp.prove_point(&dense, 8).unwrap_err(), Error::IndexOutOfRange);
    assert_eq!(pp.prove_point(&long, 1).unwrap_err(), Error::IndexOutOfRange);
    assert!(pp.commit(&vec![scalar(1); 8]).is_ok());
}

#[test]
fn encoded_openings_verify() {
    let pp = PublicParameters::new(&scalar(19), 4).unwrap();
    let p = poly(&[(2, 6), (5, 1)]);
    let c = pp.commit_sparse(&p).unwrap().to_bytes();
    let proof = pp.prove_point_sparse(&p, 5).unwrap().to_bytes();
    assert!(verify_encoded(&pp, &c, &proof, 5, &scalar(1)).is_ok());
    assert_eq!(verify_encoded(&pp, &c, &proof, 5, &scalar(2)), Err(Error::VerifyReject));
    assert_eq!(verify_encoded(&pp, &c, &proof, 16, &scalar(1)), Err(Error::VerifyReject));
    assert_eq!(verify_encoded(&pp, &c[..47], &proof, 5, &scalar(1)), Err(Error::Deserialize));
    let mut longer = proof.clone();
    longer.push(0);
    assert_eq!(verify_encoded(&pp, &c, &longer, 5, &scalar(1)), Err(Error::Deserialize));
}

#[test]
fn commitments_compare_by_encoding() {
    let pp = PublicParameters::new(&scalar(19), 3).unwrap();
    let a = pp.commit_sparse(&poly(&[(1, 2)])).unwrap();
    let b = pp.commit_sparse(&poly(&[(1, 1), (1, 1)])).unwrap();
    let c = pp.commit_sparse(&poly(&[(2, 2)])).unwrap();
    assert_eq!(a, b);
    assert_ne!(a, c);
    assert_eq!(Commitment::identity(), Commitment::default());
}
