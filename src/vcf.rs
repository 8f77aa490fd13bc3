use vstd::prelude::*;
use std::collections::HashMap;
use crate::commitment::{commit_outcome, prove_outcome, Commitment, Error, PointProof, PublicParameters};
use crate::group::all_scalars_wf;
use vstd::arithmetic::div_mod::{lemma_add_mod_noop, lemma_mod_twice, lemma_small_mod};
use crate::field::{modulus, Scalar};
use crate::poly::SparsePoly;

verus! {

broadcast use vstd::std_specs::hash::group_hash_axioms;

/// The field value of an alternative-allele letter: `A` and `T` give 1, `C`
/// and `G` give 2, anything else 0.
pub open spec fn base_value(b: Seq<u8>) -> u8 {
    if b.len() != 1 {
        0
    } else if b[0] == 65 || b[0] == 84 {
        1
    } else if b[0] == 67 || b[0] == 71 {
        2
    } else {
        0
    }
}

pub fn base_to_int(base: &[u8]) -> (r: u8)
    ensures
        r == base_value(base@),
{
    if base.len() != 1 {
        0
    } else if base[0] == 65 || base[0] == 84 {
        1
    } else if base[0] == 67 || base[0] == 71 {
        2
    } else {
        0
    }
}

pub open spec fn is_digit(c: u8) -> bool {
    48 <= c <= 57
}

pub open spec fn decimal_value(s: Seq<u8>) -> int
    decreases s.len(),
{
    if s.len() == 0 {
        0
    } else {
        decimal_value(s.drop_last()) * 10 + (s.last() - 48)
    }
}

/// The digits of a numeral: all of it, or all but one leading `+`.
pub open spec fn unsigned_digits(s: Seq<u8>) -> Seq<u8> {
    if s.len() > 0 && s[0] == 43 {
        s.drop_first()
    } else {
        s
    }
}

/// The number that a numeral denotes (an optional leading `+`, then a
/// non-empty run of decimal digits), where it fits in 64 bits.
pub open spec fn decimal_opt(s: Seq<u8>) -> Option<u64> {
    let d = unsigned_digits(s);
    if d.len() > 0 && (forall|k: int| 0 <= k < d.len() ==> is_digit(#[trigger] d[k]))
        && decimal_value(d) <= u64::MAX {
        Some(decimal_value(d) as u64)
    } else {
        None
    }
}

proof fn lemma_decimal_grows(s: Seq<u8>, i: int, j: int)
    requires
        0 <= i <= j <= s.len(),
        forall|k: int| 0 <= k < s.len() ==> is_digit(#[trigger] s[k]),
    ensures
        0 <= decimal_value(s.take(i)) <= decimal_value(s.take(j)),
    decreases j,
{
    if j > 0 {
        assert(s.take(j).drop_last() == s.take(j - 1));
        if i < j {
            lemma_decimal_grows(s, i, j - 1);
        } else {
            lemma_decimal_grows(s, j - 1, j - 1);
        }
    }
}

/// Parses a decimal number of up to 64 bits, with an optional leading `+`.
pub fn parse_decimal(s: &[u8]) -> (r: Option<u64>)
    ensures
        r == decimal_opt(s@),
{
    if s.len() > 0 && s[0] == 43 {
        let rest = vstd::slice::slice_subrange(s, 1, s.len());
        assert(rest@ =~= s@.drop_first());
        parse_digits(rest)
    } else {
        parse_digits(s)
    }
}

/// Parses a non-empty run of decimal digits of up to 64 bits.
fn parse_digits(s: &[u8]) -> (r: Option<u64>)
    ensures
        r == (if s@.len() > 0 && (forall|k: int| 0 <= k < s@.len() ==> is_digit(#[trigger] s@[k]))
            && decimal_value(s@) <= u64::MAX {
            Some(decimal_value(s@) as u64)
        } else {
            None
        }),
{
    if s.len() == 0 {
        return None;
    }
    let mut k: usize = 0;
    while k < s.len()
        invariant
            k <= s@.len(),
            forall|j: int| 0 <= j < k ==> is_digit(#[trigger] s@[j]),
        decreases s@.len() - k,
    {
        if s[k] < 48 || s[k] > 57 {
            return None;
        }
        k = k + 1;
    }
    let mut acc: u64 = 0;
    let mut i: usize = 0;
    while i < s.len()
        invariant
            i <= s@.len(),
            forall|j: int| 0 <= j < s@.len() ==> is_digit(#[trigger] s@[j]),
            acc == decimal_value(s@.take(i as int)),
        decreases s@.len() - i,
    {
        assert(s@.take(i + 1).drop_last() == s@.take(i as int));
        let d = (s[i] - 48) as u64;
        match acc.checked_mul(10) {
            None => {
                proof {
                    lemma_decimal_grows(s@, i + 1, s@.len() as int);
                    assert(s@.take(s@.len() as int) == s@);
                }
                return None;
            },
            Some(t) => match t.checked_add(d) {
                None => {
                    proof {
                        lemma_decimal_grows(s@, i + 1, s@.len() as int);
                        assert(s@.take(s@.len() as int) == s@);
                    }
                    return None;
                },
                Some(v) => {
                    acc = v;
                },
            },
        }
        i = i + 1;
    }
    assert(s@.take(s@.len() as int) == s@);
    Some(acc)
}

/// Parses a chromosome number.
pub fn chromosome_to_int(chr: &[u8]) -> (r: Option<u64>)
    ensures
        r == decimal_opt(chr@),
{
    parse_decimal(chr)
}

pub open spec fn is_space(c: u8) -> bool {
    c == 32 || (9 <= c <= 13)
}

/// The `[start, end)` ranges of the whitespace-separated fields of `s` from
/// position `i` on, where a field that began at `st` (if `st >= 0`) is open
/// and `acc` holds the fields closed so far.
pub open spec fn ranges_from(s: Seq<u8>, i: int, st: int, acc: Seq<(usize, usize)>) -> Seq<(usize, usize)>
    decreases s.len() - i,
{
    if i >= s.len() {
        if st >= 0 {
            acc.push((st as usize, s.len() as usize))
        } else {
            acc
        }
    } else if is_space(s[i]) {
        ranges_from(s, i + 1, -1, if st >= 0 { acc.push((st as usize, i as usize)) } else { acc })
    } else {
        ranges_from(s, i + 1, if st >= 0 { st } else { i }, acc)
    }
}

/// The ranges of the whitespace-separated fields of a line.
pub open spec fn field_ranges(s: Seq<u8>) -> Seq<(usize, usize)> {
    ranges_from(s, 0, -1, Seq::empty())
}

pub open spec fn ranges_valid(s: Seq<u8>, r: Seq<(usize, usize)>) -> bool {
    forall|k: int| 0 <= k < r.len() ==> (#[trigger] r[k]).0 <= r[k].1 <= s.len()
}

proof fn lemma_ranges_valid(s: Seq<u8>, i: int, st: int, acc: Seq<(usize, usize)>)
    requires
        0 <= i <= s.len() <= usize::MAX,
        -1 <= st < i,
        ranges_valid(s, acc),
    ensures
        ranges_valid(s, ranges_from(s, i, st, acc)),
    decreases s.len() - i,
{
    if i < s.len() {
        if is_space(s[i]) {
            let acc2 = if st >= 0 { acc.push((st as usize, i as usize)) } else { acc };
            assert(ranges_valid(s, acc2));
            lemma_ranges_valid(s, i + 1, -1, acc2);
        } else {
            lemma_ranges_valid(s, i + 1, if st >= 0 { st } else { i }, acc);
        }
    } else {
        let acc2 = if st >= 0 { acc.push((st as usize, s.len() as usize)) } else { acc };
        assert(ranges_valid(s, acc2));
    }
}

/// Splits a line on whitespace, as ranges of its fields.
pub fn split_fields(s: &[u8]) -> (r: Vec<(usize, usize)>)
    ensures
        r@ == field_ranges(s@),
        ranges_valid(s@, r@),
{
    let mut acc: Vec<(usize, usize)> = Vec::new();
    let mut open = false;
    let mut st: usize = 0;
    let mut i: usize = 0;
    proof {
        assert(s@.len() == s.len());
        lemma_ranges_valid(s@, 0, -1, Seq::empty());
    }
    while i < s.len()
        invariant
            i <= s@.len(),
            open ==> st < i,
            field_ranges(s@) == ranges_from(s@, i as int, if open { st as int } else { -1 }, acc@),
        decreases s@.len() - i,
    {
        if s[i] == 32 || (9 <= s[i] && s[i] <= 13) {
            if open {
                acc.push((st, i));
            }
            open = false;
        } else if !open {
            open = true;
            st = i;
        }
        i = i + 1;
    }
    if open {
        acc.push((st, s.len()));
    }
    acc
}

pub open spec fn is_meta_line(s: Seq<u8>) -> bool {
    s.len() >= 2 && s[0] == 35 && s[1] == 35
}

pub open spec fn field_of(s: Seq<u8>, r: (usize, usize)) -> Seq<u8> {
    s.subrange(r.0 as int, r.1 as int)
}

/// What one VCF line contributes: nothing for a `##` line or a record whose
/// third field is not an `rs` identifier; otherwise the identifier's number
/// and the field value of the fifth field (the alternative allele).
pub open spec fn record_of(s: Seq<u8>) -> Result<Option<(u64, u8)>, Error> {
    if is_meta_line(s) {
        Ok(None)
    } else {
        let r = field_ranges(s);
        if r.len() < 3 {
            Err(Error::MalformedInput)
        } else {
            let id = field_of(s, r[2]);
            if !(id.len() >= 2 && id[0] == 114 && id[1] == 115) {
                Ok(None)
            } else if r.len() < 5 {
                Err(Error::MalformedInput)
            } else {
                match decimal_opt(id.subrange(2, id.len() as int)) {
                    None => Err(Error::MalformedInput),
                    Some(v) => Ok(Some((v, base_value(field_of(s, r[4]))))),
                }
            }
        }
    }
}

/// Parses one line of a VCF file.
pub fn parse_record(s: &[u8]) -> (r: Result<Option<(u64, u8)>, Error>)
    ensures
        r == record_of(s@),
{
    if s.len() >= 2 && s[0] == 35 && s[1] == 35 {
        return Ok(None);
    }
    let r = split_fields(s);
    if r.len() < 3 {
        return Err(Error::MalformedInput);
    }
    let (a, b) = r[2];
    proof {
        assert(ranges_valid(s@, r@));
        assert(r@[2].0 <= r@[2].1 <= s@.len());
    }
    let id = vstd::slice::slice_subrange(s, a, b);
    if !(id.len() >= 2 && id[0] == 114 && id[1] == 115) {
        return Ok(None);
    }
    if r.len() < 5 {
        return Err(Error::MalformedInput);
    }
    let digits = vstd::slice::slice_subrange(id, 2, id.len());
    match parse_decimal(digits) {
        None => Err(Error::MalformedInput),
        Some(v) => {
            let (c, d) = r[4];
            proof {
                assert(r@[4].0 <= r@[4].1 <= s@.len());
            }
            let alt = vstd::slice::slice_subrange(s, c, d);
            Ok(Some((v, base_to_int(alt))))
        },
    }
}

/// The identifier on a line of the rsID list: the number after its first
/// two characters (`rs`).
pub open spec fn rsid_line(s: Seq<u8>) -> Option<u64> {
    if s.len() >= 2 {
        decimal_opt(s.subrange(2, s.len() as int))
    } else {
        None
    }
}

/// The filter that the rsID list gives: each identifier maps to the number
/// of its line; where one repeats, the last line counts.
pub open spec fn filter_of(lines: Seq<Vec<u8>>) -> Map<u64, usize>
    decreases lines.len(),
{
    if lines.len() == 0 {
        Map::empty()
    } else {
        filter_of(lines.drop_last()).insert(
            rsid_line(lines.last()@).unwrap(),
            (lines.len() - 1) as usize,
        )
    }
}

/// Builds the map from rsID to slot out of the lines of the rsID list.
pub fn rsid_filter(lines: &Vec<Vec<u8>>) -> (r: Result<HashMap<u64, usize>, Error>)
    ensures
        r is Ok <==> forall|k: int| 0 <= k < lines@.len() ==> (#[trigger] rsid_line(lines@[k]@)) is Some,
        r is Ok ==> r.unwrap()@ == filter_of(lines@),
        r is Err ==> r == Err::<HashMap<u64, usize>, Error>(Error::MalformedInput),
{
    let mut m: HashMap<u64, usize> = HashMap::new();
    let mut k: usize = 0;
    while k < lines.len()
        invariant
            k <= lines@.len(),
            forall|j: int| 0 <= j < k ==> (#[trigger] rsid_line(lines@[j]@)) is Some,
            m@ == filter_of(lines@.take(k as int)),
        decreases lines@.len() - k,
    {
        let line = &lines[k];
        assert(lines@.take(k + 1).drop_last() == lines@.take(k as int));
        assert(line@ == lines@[k as int]@);
        if line.len() < 2 {
            assert(rsid_line(lines@[k as int]@) is None);
            return Err(Error::MalformedInput);
        }
        let digits = vstd::slice::slice_subrange(line.as_slice(), 2, line.len());
        match parse_decimal(digits) {
            None => {
                assert(rsid_line(lines@[k as int]@) is None);
                return Err(Error::MalformedInput);
            },
            Some(id) => {
                assert(rsid_line(lines@.take(k + 1).last()@) == Some(id));
                m.insert(id, k);
            },
        }
        k = k + 1;
    }
    assert(lines@.take(k as int) == lines@);
    Ok(m)
}

/// The terms that the lines of a VCF file give under a filter, in order:
/// for each record with an identifier that the filter holds, its slot and
/// its allele's value.
pub open spec fn terms_of(lines: Seq<Vec<u8>>, filter: Map<u64, usize>) -> Seq<(usize, u8)>
    decreases lines.len(),
{
    if lines.len() == 0 {
        Seq::empty()
    } else {
        let prev = terms_of(lines.drop_last(), filter);
        match record_of(lines.last()@) {
            Ok(Some((id, v))) => if filter.contains_key(id) {
                prev.push((filter[id], v))
            } else {
                prev
            },
            _ => prev,
        }
    }
}

pub open spec fn lines_parse(lines: Seq<Vec<u8>>) -> bool {
    forall|k: int| 0 <= k < lines.len() ==> (#[trigger] record_of(lines[k]@)) is Ok
}

/// The polynomial of a genome over rsID slots.
pub struct RsIdPoly(pub SparsePoly);

/// Sum of the values of the terms at slot `j`.
pub open spec fn slot_sum(t: Seq<(usize, u8)>, j: int) -> int
    decreases t.len(),
{
    if t.len() == 0 {
        0
    } else {
        slot_sum(t.drop_last(), j) + if t.last().0 == j {
            t.last().1 as int
        } else {
            0
        }
    }
}

impl RsIdPoly {
    /// Reads the records of a VCF file, line by line, keeping those whose
    /// rsID the filter holds; records at the same slot add up.
    pub fn from_lines(lines: &Vec<Vec<u8>>, filter: &HashMap<u64, usize>) -> (r: Result<RsIdPoly, Error>)
        ensures
            r is Ok <==> lines_parse(lines@),
            r is Ok ==> {
                &&& r.unwrap().0.wf()
                &&& r.unwrap().0.is_canonical()
                &&& forall|j: int| #[trigger] r.unwrap().0.coefficient(j) == slot_sum(terms_of(lines@, filter@), j) % modulus()
            },
            r is Err ==> r == Err::<RsIdPoly, Error>(Error::MalformedInput),
    {
        let mut p = SparsePoly::new();
        let mut k: usize = 0;
        while k < lines.len()
            invariant
                k <= lines@.len(),
                forall|j: int| 0 <= j < k ==> (#[trigger] record_of(lines@[j]@)) is Ok,
                p.wf(),
                p.is_canonical(),
                forall|j: int| #[trigger] p.coefficient(j) == slot_sum(terms_of(lines@.take(k as int), filter@), j) % modulus(),
            decreases lines@.len() - k,
        {
            assert(lines@.take(k + 1).drop_last() == lines@.take(k as int));
            assert(lines@.take(k + 1).last() == lines@[k as int]);
            let ghost prev = terms_of(lines@.take(k as int), filter@);
            match parse_record(lines[k].as_slice()) {
                Err(e) => {
                    return Err(e);
                },
                Ok(None) => {},
                Ok(Some((id, v))) => {
                    match filter.get(&id) {
                        Some(slot) => {
                            let c = Scalar::from_u64(v as u64);
                            p.insert(*slot, c);
                            proof {
                                let t = terms_of(lines@.take(k + 1), filter@);
                                assert(t == prev.push((*slot, v)));
                                assert(t.drop_last() == prev);
                                assert forall|j: int| #[trigger] p.coefficient(j) == slot_sum(t, j) % modulus() by {
                                    let d = if j == *slot as int { v as int } else { 0 };
                                    lemma_add_mod_noop(slot_sum(prev, j), d, modulus());
                                    lemma_mod_twice(slot_sum(prev, j), modulus());
                                    lemma_small_mod(d as nat, modulus() as nat);
                                }
                            }
                        },
                        None => {},
                    }
                },
            }
            k = k + 1;
        }
        assert(lines@.take(k as int) == lines@);
        Ok(RsIdPoly(p))
    }
}

/// The commitment to a genome's rsID polynomial.
#[derive(Clone, Copy, Debug)]
pub struct RsIdHash(pub Commitment);

impl RsIdHash {
    pub fn new(pp: &PublicParameters, rsid_poly: &RsIdPoly) -> (r: Result<RsIdHash, Error>)
        requires
            pp.wf(),
            all_scalars_wf(rsid_poly.0.coef@),
        ensures
            match r {
                Ok(h) => commit_outcome(pp, &rsid_poly.0, Ok(h.0)),
                Err(e) => commit_outcome(pp, &rsid_poly.0, Err(e)),
            },
    {
        match pp.commit_sparse(&rsid_poly.0) {
            Ok(c) => Ok(RsIdHash(c)),
            Err(e) => Err(e),
        }
    }

    /// Opens the polynomial at the slot `rsid`.
    pub fn prove(pp: &PublicParameters, rsid_poly: &RsIdPoly, rsid: usize) -> (r: Result<PointProof, Error>)
        requires
            pp.wf(),
            all_scalars_wf(rsid_poly.0.coef@),
        ensures
            prove_outcome(pp, &rsid_poly.0, rsid as int, r),
    {
        PointProof::new_sparse(pp, &rsid_poly.0, rsid)
    }

    pub fn commitment(&self) -> (r: Commitment)
        ensures
            r == self.0,
    {
        self.0
    }
}

impl PartialEq for RsIdHash {
    fn eq(&self, other: &RsIdHash) -> (r: bool) {
        self.0 == other.0
    }
}

impl vstd::std_specs::cmp::PartialEqSpecImpl for RsIdHash {
    open spec fn obeys_eq_spec() -> bool {
        true
    }

    open spec fn eq_spec(&self, other: &RsIdHash) -> bool {
        self.0.0.bytes@ == other.0.0.bytes@
    }
}

impl Eq for RsIdHash {
}

impl From<RsIdHash> for Commitment {
    fn from(value: RsIdHash) -> Commitment {
        value.0
    }
}

impl vstd::std_specs::convert::FromSpecImpl<RsIdHash> for Commitment {
    open spec fn obeys_from_spec() -> bool {
        true
    }

    open spec fn from_spec(v: RsIdHash) -> Commitment {
        v.0
    }
}

} // verus!
