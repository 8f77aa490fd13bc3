use dna_commit::commitment::{Error, PublicParameters};
use dna_commit::field::Scalar;
use dna_commit::vcf::{
    base_to_int, chromosome_to_int, parse_decimal, parse_record, rsid_filter, split_fields,
    RsIdHash, RsIdPoly,
};

fn lines(text: &[&str]) -> Vec<Vec<u8>> {
    text.iter().map(|l| l.as_bytes().to_vec()).collect()
}

#[test]
fn base_letters_map_to_values() {
    assert_eq!(base_to_int(b"A"), 1);
    assert_eq!(base_to_int(b"T"), 1);
    assert_eq!(base_to_int(b"C"), 2);
    assert_eq!(base_to_int(b"G"), 2);
    assert_eq!(base_to_int(b"N"), 0);
    assert_eq!(base_to_int(b"AC"), 0);
    assert_eq!(base_to_int(b""), 0);
}

#[test]
fn decimals_parse() {
    assert_eq!(parse_decimal(b"0"), Some(0));
    assert_eq!(parse_decimal(b"12345"), Some(12345));
    assert_eq!(parse_decimal(b"18446744073709551615"), Some(u64::MAX));
    assert_eq!(parse_decimal(b"18446744073709551616"), None);
    assert_eq!(parse_decimal(b""), None);
    assert_eq!(parse_decimal(b"12a"), None);
    assert_eq!(parse_decimal(b"+5"), Some(5));
    assert_eq!(parse_decimal(b"+"), None);
    assert_eq!(parse_decimal(b"++5"), None);
    assert_eq!(parse_decimal(b"5+"), None);
    assert_eq!(parse_decimal(b"-5"), None);
    assert_eq!(chromosome_to_int(b"+7"), Some(7));
    assert_eq!(chromosome_to_int(b"22"), Some(22));
    assert_eq!(chromosome_to_int(b"X"), None);
}

#[test]
fn fields_split_on_whitespace() {
    assert_eq!(split_fields(b"  ab\tc  d "), vec![(2, 4), (5, 6), (8, 9)]);
    assert_eq!(split_fields(b""), vec![]);
    assert_eq!(split_fields(b"x"), vec![(0, 1)]);
}

#[test]
fn records_parse() {
    assert_eq!(parse_record(b"##fileformat=VCFv4.2"), Ok(None));
    assert_eq!(parse_record(b"#CHROM\tPOS\tID\tREF\tALT"), Ok(None));
    assert_eq!(parse_record(b"1\t100\trs42\tG\tC"), Ok(Some((42, 2))));
    assert_eq!(parse_record(b"1\t100\trs42\tG\tT\t50"), Ok(Some((42, 1))));
    assert_eq!(parse_record(b"1\t100\t.\tG\tT"), Ok(None));
    assert_eq!(parse_record(b"1\t100\trs+5\tG\tA"), Ok(Some((5, 1))));
    assert_eq!(parse_record(b"1\t100"), Err(Error::MalformedInput));
    assert_eq!(parse_record(b"1\t100\trs42\tG"), Err(Error::MalformedInput));
    assert_eq!(parse_record(b"1\t100\trsX\tG\tA"), Err(Error::MalformedInput));
}

#[test]
fn rsid_list_gives_slots() {
    let f = rsid_filter(&lines(&["rs100", "rs200", "rs100"])).unwrap();
    assert_eq!(f.get(&100), Some(&2));
    assert_eq!(f.get(&200), Some(&1));
    assert_eq!(f.len(), 2);
    let g = rsid_filter(&lines(&["rs+7"])).unwrap();
    assert_eq!(g.get(&7), Some(&0));
    assert_eq!(rsid_filter(&lines(&["rs1", "x"])).unwrap_err(), Error::MalformedInput);
    assert_eq!(rsid_filter(&lines(&["rs1", "rsq"])).unwrap_err(), Error::MalformedInput);
}

#[test]
fn vcf_lines_give_terms() {
    let filter = rsid_filter(&lines(&["rs100", "rs200"])).unwrap();
    let vcf = lines(&[
        "##header",
        "#CHROM\tPOS\tID\tREF\tALT",
        "1\t10\trs100\tG\tA",
        "1\t20\trs300\tG\tC",
        "2\t30\trs200\tA\tC",
    ]);
    let p = RsIdPoly::from_lines(&vcf, &filter).unwrap();
    assert_eq!(p.0.idx, vec![0, 1]);
    assert_eq!(p.0.coef, vec![Scalar::from_u64(1), Scalar::from_u64(2)]);
    let dup = lines(&["1\t10\trs200\tG\tA", "1\t10\trs100\tG\tT", "1\t12\trs200\tG\tC"]);
    let d = RsIdPoly::from_lines(&dup, &filter).unwrap();
    assert_eq!(d.0.idx, vec![0, 1]);
    assert_eq!(d.0.coef, vec![Scalar::from_u64(1), Scalar::from_u64(3)]);
    let bad = lines(&["1\t10\trs100\tG"]);
    assert!(matches!(RsIdPoly::from_lines(&bad, &filter), Err(Error::MalformedInput)));
}

#[test]
fn end_to_end_two_records() {
    let pp = PublicParameters::generate(4).unwrap();
    let filter = rsid_filter(&lines(&["rs100", "rs200"])).unwrap();
    let vcf = lines(&["1\t10\trs100\tG\tA", "1\t20\trs200\tA\tC"]);
    let p = RsIdPoly::from_lines(&vcf, &filter).unwrap();
    let hash = RsIdHash::new(&pp, &p).unwrap();
    let slot = *filter.get(&200).unwrap();
    let proof = RsIdHash::prove(&pp, &p, slot).unwrap();
    let value = |letter: &[u8]| Scalar::from_u64(base_to_int(letter) as u64);
    let c = hash.commitment();
    let converted: dna_commit::commitment::Commitment = hash.into();
    assert_eq!(converted.to_bytes(), c.to_bytes());
    assert_eq!(RsIdHash::new(&pp, &p).unwrap(), hash);
    assert!(proof.verify(&pp, &c, slot, &value(b"C")).is_ok());
    assert!(proof.verify(&pp, &c, slot, &value(b"G")).is_ok());
    assert_eq!(proof.verify(&pp, &c, slot, &value(b"A")), Err(Error::VerifyReject));
}
