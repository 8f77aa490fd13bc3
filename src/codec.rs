use vstd::prelude::*;
use crate::commitment::{Commitment, Error, PointProof, PublicParameters};
use crate::group::{decode_g1, decode_g2, g1_accepts, g1_log, g2_accepts, G1Point, G2Point};
use crate::field::{modulus, Scalar};

verus! {

/// The 8 little-endian bytes of `x`.
pub open spec fn le64(x: u64) -> Seq<u8> {
    seq![
        x as u8,
        (x >> 8u64) as u8,
        (x >> 16u64) as u8,
        (x >> 24u64) as u8,
        (x >> 32u64) as u8,
        (x >> 40u64) as u8,
        (x >> 48u64) as u8,
        (x >> 56u64) as u8,
    ]
}

/// The number that 8 little-endian bytes hold.
pub open spec fn le64_value(s: Seq<u8>) -> u64 {
    (s[0] as u64) | ((s[1] as u64) << 8u64) | ((s[2] as u64) << 16u64) | ((s[3] as u64) << 24u64)
        | ((s[4] as u64) << 32u64) | ((s[5] as u64) << 40u64) | ((s[6] as u64) << 48u64) | ((
    s[7] as u64) << 56u64)
}

pub proof fn lemma_le64_round_trip(x: u64)
    ensures
        le64_value(le64(x)) == x,
{
    let s = le64(x);
    let (b0, b1, b2, b3, b4, b5, b6, b7) = (s[0], s[1], s[2], s[3], s[4], s[5], s[6], s[7]);
    assert(b0 == x as u8 && b1 == (x >> 8u64) as u8 && b2 == (x >> 16u64) as u8 && b3 == (x
        >> 24u64) as u8 && b4 == (x >> 32u64) as u8 && b5 == (x >> 40u64) as u8 && b6 == (x
        >> 48u64) as u8 && b7 == (x >> 56u64) as u8);
    assert(b0 == x as u8 && b1 == (x >> 8u64) as u8 && b2 == (x >> 16u64) as u8 && b3 == (x
        >> 24u64) as u8 && b4 == (x >> 32u64) as u8 && b5 == (x >> 40u64) as u8 && b6 == (x
        >> 48u64) as u8 && b7 == (x >> 56u64) as u8 ==> (b0 as u64) | ((b1 as u64) << 8u64) | ((
    b2 as u64) << 16u64) | ((b3 as u64) << 24u64) | ((b4 as u64) << 32u64) | ((b5 as u64)
        << 40u64) | ((b6 as u64) << 48u64) | ((b7 as u64) << 56u64) == x) by (bit_vector);
}

/// The encodings of the G1 points, one after the other.
pub open spec fn flat_g1(s: Seq<G1Point>) -> Seq<u8>
    decreases s.len(),
{
    if s.len() == 0 {
        Seq::empty()
    } else {
        flat_g1(s.drop_last()) + s.last().bytes@
    }
}

/// The encodings of the G2 points, one after the other.
pub open spec fn flat_g2(s: Seq<G2Point>) -> Seq<u8>
    decreases s.len(),
{
    if s.len() == 0 {
        Seq::empty()
    } else {
        flat_g2(s.drop_last()) + s.last().bytes@
    }
}

/// The byte form of the parameters: the number of G1 points as 8
/// little-endian bytes, their compressed encodings, then the same for G2.
pub open spec fn srs_encoding(g1: Seq<G1Point>, g2: Seq<G2Point>) -> Seq<u8> {
    le64(g1.len() as u64) + flat_g1(g1) + le64(g2.len() as u64) + flat_g2(g2)
}

/// Whether the lengths in `b` account for every byte of it.
pub open spec fn srs_framed(b: Seq<u8>) -> bool {
    b.len() >= 16 && {
        let n1 = le64_value(b.subrange(0, 8)) as int;
        16 + 48 * n1 <= b.len() && {
            let n2 = le64_value(b.subrange(8 + 48 * n1, 16 + 48 * n1)) as int;
            b.len() == 16 + 48 * n1 + 96 * n2
        }
    }
}

/// Whether each point of a framed `b` is a valid encoding.
pub open spec fn srs_points_valid(b: Seq<u8>) -> bool {
    let n1 = le64_value(b.subrange(0, 8)) as int;
    let n2 = le64_value(b.subrange(8 + 48 * n1, 16 + 48 * n1)) as int;
    &&& forall|k: int| 0 <= k < n1 ==> #[trigger] g1_accepts(b.subrange(8 + 48 * k, 56 + 48 * k))
    &&& forall|k: int|
        0 <= k < n2 ==> #[trigger] g2_accepts(
            b.subrange(16 + 48 * n1 + 96 * k, 112 + 48 * n1 + 96 * k),
        )
}

proof fn lemma_flat_g1(s: Seq<G1Point>, j: int)
    requires
        0 <= j < s.len(),
    ensures
        flat_g1(s).len() == 48 * s.len(),
        flat_g1(s).subrange(48 * j, 48 * j + 48) == s[j].bytes@,
    decreases s.len(),
{
    lemma_flat_g1_len(s);
    lemma_flat_g1_len(s.drop_last());
    if j < s.len() - 1 {
        lemma_flat_g1(s.drop_last(), j);
        assert(flat_g1(s).subrange(48 * j, 48 * j + 48) =~= flat_g1(s.drop_last()).subrange(
            48 * j,
            48 * j + 48,
        ));
    } else {
        assert(flat_g1(s).subrange(48 * j, 48 * j + 48) =~= s.last().bytes@);
    }
}

proof fn lemma_flat_g1_len(s: Seq<G1Point>)
    ensures
        flat_g1(s).len() == 48 * s.len(),
    decreases s.len(),
{
    if s.len() > 0 {
        lemma_flat_g1_len(s.drop_last());
    }
}

proof fn lemma_flat_g2(s: Seq<G2Point>, j: int)
    requires
        0 <= j < s.len(),
    ensures
        flat_g2(s).len() == 96 * s.len(),
        flat_g2(s).subrange(96 * j, 96 * j + 96) == s[j].bytes@,
    decreases s.len(),
{
    lemma_flat_g2_len(s);
    lemma_flat_g2_len(s.drop_last());
    if j < s.len() - 1 {
        lemma_flat_g2(s.drop_last(), j);
        assert(flat_g2(s).subrange(96 * j, 96 * j + 96) =~= flat_g2(s.drop_last()).subrange(
            96 * j,
            96 * j + 96,
        ));
    } else {
        assert(flat_g2(s).subrange(96 * j, 96 * j + 96) =~= s.last().bytes@);
    }
}

proof fn lemma_flat_g2_len(s: Seq<G2Point>)
    ensures
        flat_g2(s).len() == 96 * s.len(),
    decreases s.len(),
{
    if s.len() > 0 {
        lemma_flat_g2_len(s.drop_last());
    }
}

fn append_bytes(out: &mut Vec<u8>, b: &[u8])
    ensures
        final(out)@ == old(out)@ + b@,
{
    let mut i: usize = 0;
    while i < b.len()
        invariant
            i <= b@.len(),
            out@ == old(out)@ + b@.take(i as int),
        decreases b@.len() - i,
    {
        out.push(b[i]);
        i = i + 1;
        assert(out@ =~= old(out)@ + b@.take(i as int));
    }
    assert(b@.take(i as int) =~= b@);
}

fn append_le64(out: &mut Vec<u8>, x: u64)
    ensures
        final(out)@ == old(out)@ + le64(x),
{
    out.push(x as u8);
    out.push((x >> 8) as u8);
    out.push((x >> 16) as u8);
    out.push((x >> 24) as u8);
    out.push((x >> 32) as u8);
    out.push((x >> 40) as u8);
    out.push((x >> 48) as u8);
    out.push((x >> 56) as u8);
    assert(out@ =~= old(out)@ + le64(x));
}

fn read_le64(b: &[u8], pos: usize) -> (r: u64)
    requires
        pos + 8 <= b@.len(),
    ensures
        r == le64_value(b@.subrange(pos as int, pos + 8)),
{
    (b[pos] as u64) | ((b[pos + 1] as u64) << 8) | ((b[pos + 2] as u64) << 16) | ((b[pos
        + 3] as u64) << 24) | ((b[pos + 4] as u64) << 32) | ((b[pos + 5] as u64) << 40) | ((b[pos
        + 6] as u64) << 48) | ((b[pos + 7] as u64) << 56)
}

impl Commitment {
    /// The compressed encoding of the point.
    pub fn to_bytes(&self) -> (r: Vec<u8>)
        ensures
            r@ == self.0.bytes@,
    {
        let mut out: Vec<u8> = Vec::new();
        append_bytes(&mut out, &self.0.bytes);
        out
    }

    /// Reads a commitment; fails unless `b` is one valid compressed encoding.
    pub fn from_bytes(b: &[u8]) -> (r: Result<Commitment, Error>)
        ensures
            r is Ok <==> b@.len() == 48 && g1_accepts(b@),
            r is Ok ==> r.unwrap().0.bytes@ == b@,
            r is Err ==> r == Err::<Commitment, Error>(Error::Deserialize),
    {
        if b.len() != 48 {
            return Err(Error::Deserialize);
        }
        match decode_g1(b) {
            Some(p) => Ok(Commitment(p)),
            None => Err(Error::Deserialize),
        }
    }
}

impl PointProof {
    /// The encodings of the two points, in order.
    pub fn to_bytes(&self) -> (r: Vec<u8>)
        ensures
            r@ == self.0.bytes@ + self.1.bytes@,
    {
        let mut out: Vec<u8> = Vec::new();
        append_bytes(&mut out, &self.0.bytes);
        append_bytes(&mut out, &self.1.bytes);
        out
    }

    /// Reads a proof; fails unless `b` is two valid compressed encodings.
    pub fn from_bytes(b: &[u8]) -> (r: Result<PointProof, Error>)
        ensures
            r is Ok <==> b@.len() == 96 && g1_accepts(b@.subrange(0, 48)) && g1_accepts(
                b@.subrange(48, 96),
            ),
            r is Ok ==> r.unwrap().0.bytes@ + r.unwrap().1.bytes@ == b@,
            r is Err ==> r == Err::<PointProof, Error>(Error::Deserialize),
    {
        if b.len() != 96 {
            return Err(Error::Deserialize);
        }
        let first = vstd::slice::slice_subrange(b, 0, 48);
        let second = vstd::slice::slice_subrange(b, 48, 96);
        match (decode_g1(first), decode_g1(second)) {
            (Some(p), Some(q)) => {
                assert(p.bytes@ + q.bytes@ =~= b@);
                Ok(PointProof(p, q))
            },
            _ => Err(Error::Deserialize),
        }
    }
}

impl PublicParameters {
    /// The parameters in their byte form.
    pub fn to_bytes(&self) -> (r: Vec<u8>)
        requires
            16 + 48 * self.g1().len() + 96 * self.g2().len() <= usize::MAX,
        ensures
            r@ == srs_encoding(self.g1(), self.g2()),
    {
        let mut out: Vec<u8> = Vec::new();
        append_le64(&mut out, self.powers_of_g.len() as u64);
        let mut k: usize = 0;
        while k < self.powers_of_g.len()
            invariant
                k <= self.g1().len(),
                out@ == le64(self.g1().len() as u64) + flat_g1(self.g1().take(k as int)),
            decreases self.g1().len() - k,
        {
            append_bytes(&mut out, &self.powers_of_g[k].bytes);
            assert(self.g1().take(k + 1).drop_last() == self.g1().take(k as int));
            k = k + 1;
        }
        assert(self.g1().take(k as int) == self.g1());
        append_le64(&mut out, self.powers_of_g2.len() as u64);
        let ghost mid = out@;
        let mut k: usize = 0;
        while k < self.powers_of_g2.len()
            invariant
                k <= self.g2().len(),
                out@ == mid + flat_g2(self.g2().take(k as int)),
            decreases self.g2().len() - k,
        {
            append_bytes(&mut out, &self.powers_of_g2[k].bytes);
            assert(self.g2().take(k + 1).drop_last() == self.g2().take(k as int));
            assert(out@ =~= mid + flat_g2(self.g2().take(k + 1)));
            k = k + 1;
        }
        assert(self.g2().take(k as int) == self.g2());
        out
    }

    /// Reads parameters from their byte form; fails unless the lengths
    /// account for every byte and every point is a valid encoding.
    pub fn from_bytes(b: &[u8]) -> (r: Result<PublicParameters, Error>)
        ensures
            r is Ok <==> srs_framed(b@) && srs_points_valid(b@),
            r is Ok ==> r.unwrap().wf() && b@ == srs_encoding(r.unwrap().g1(), r.unwrap().g2()),
            r is Err ==> r == Err::<PublicParameters, Error>(Error::Deserialize),
    {
        let len = b.len();
        if len < 16 {
            return Err(Error::Deserialize);
        }
        let n1 = read_le64(b, 0);
        if (n1 as u128) * 48 + 16 > len as u128 {
            return Err(Error::Deserialize);
        }
        let n1 = n1 as usize;
        let base = 16 + 48 * n1;
        let n2 = read_le64(b, base - 8);
        if (base as u128) + (n2 as u128) * 96 != len as u128 {
            return Err(Error::Deserialize);
        }
        let n2 = n2 as usize;
        let ghost bs = b@;
        assert(n1 as int == le64_value(bs.subrange(0, 8)) as int);
        assert(n2 as int == le64_value(bs.subrange(8 + 48 * n1, 16 + 48 * n1)) as int);
        assert(srs_framed(bs));
        let g1 = match read_g1_block(b, n1) {
            Some(g) => g,
            None => {
                assert(!srs_points_valid(bs));
                return Err(Error::Deserialize);
            },
        };
        let g2 = match read_g2_block(b, n1, n2) {
            Some(g) => g,
            None => {
                assert(!srs_points_valid(bs));
                return Err(Error::Deserialize);
            },
        };
        assert(srs_points_valid(bs));
        let pp = PublicParameters { powers_of_g: g1, powers_of_g2: g2 };
        proof {
            lemma_le64_of_value(bs.subrange(0, 8));
            lemma_le64_of_value(bs.subrange(base - 8, base as int));
            assert(bs =~= bs.subrange(0, 8) + bs.subrange(8, base - 8) + bs.subrange(base - 8, base as int) + bs.subrange(base as int, len as int));
        }
        Ok(pp)
    }
}

proof fn lemma_le64_of_value(s: Seq<u8>)
    requires
        s.len() == 8,
    ensures
        le64(le64_value(s)) == s,
{
    let (b0, b1, b2, b3, b4, b5, b6, b7) = (s[0], s[1], s[2], s[3], s[4], s[5], s[6], s[7]);
    let x = le64_value(s);
    assert(x == (b0 as u64) | ((b1 as u64) << 8u64) | ((b2 as u64) << 16u64) | ((b3 as u64)
        << 24u64) | ((b4 as u64) << 32u64) | ((b5 as u64) << 40u64) | ((b6 as u64) << 48u64) | ((
    b7 as u64) << 56u64));
    assert(x == (b0 as u64) | ((b1 as u64) << 8u64) | ((b2 as u64) << 16u64) | ((b3 as u64)
        << 24u64) | ((b4 as u64) << 32u64) | ((b5 as u64) << 40u64) | ((b6 as u64) << 48u64) | ((
    b7 as u64) << 56u64) ==> x as u8 == b0 && (x >> 8u64) as u8 == b1 && (x >> 16u64) as u8
        == b2 && (x >> 24u64) as u8 == b3 && (x >> 32u64) as u8 == b4 && (x >> 40u64) as u8 == b5
        && (x >> 48u64) as u8 == b6 && (x >> 56u64) as u8 == b7) by (bit_vector);
    assert(le64(x) =~= s);
}

/// Reads `n1` G1 encodings that follow the first 8 bytes.
fn read_g1_block(b: &[u8], n1: usize) -> (r: Option<Vec<G1Point>>)
    requires
        8 + 48 * n1 <= b@.len(),
    ensures
        r is Some <==> forall|k: int| 0 <= k < n1 ==> #[trigger] g1_accepts(b@.subrange(8 + 48 * k, 56 + 48 * k)),
        r is Some ==> {
            &&& r.unwrap()@.len() == n1
            &&& forall|j: int| 0 <= j < n1 ==> (#[trigger] r.unwrap()@[j]).wf()
            &&& flat_g1(r.unwrap()@) == b@.subrange(8, 8 + 48 * n1)
        },
{
    let mut g1: Vec<G1Point> = Vec::new();
    let mut k: usize = 0;
    while k < n1
        invariant
            b@.len() == b.len(),
            8 + 48 * n1 <= b@.len(),
            k <= n1,
            g1@.len() == k,
            forall|j: int| 0 <= j < k ==> (#[trigger] g1@[j]).wf(),
            forall|j: int| 0 <= j < k ==> #[trigger] g1_accepts(b@.subrange(8 + 48 * j, 56 + 48 * j)),
            flat_g1(g1@) == b@.subrange(8, 8 + 48 * k),
        decreases n1 - k,
    {
        let chunk = vstd::slice::slice_subrange(b, 8 + 48 * k, 56 + 48 * k);
        match decode_g1(chunk) {
            None => {
                return None;
            },
            Some(p) => {
                let ghost prev = g1@;
                g1.push(p);
                assert(g1@.drop_last() == prev);
                assert(b@.subrange(8, 8 + 48 * (k + 1)) =~= b@.subrange(8, 8 + 48 * k) + chunk@);
            },
        }
        k = k + 1;
    }
    Some(g1)
}

/// Reads `n2` G2 encodings that follow the `n1` G1 encodings and the second length.
fn read_g2_block(b: &[u8], n1: usize, n2: usize) -> (r: Option<Vec<G2Point>>)
    requires
        16 + 48 * n1 + 96 * n2 <= b@.len(),
    ensures
        r is Some <==> forall|k: int| 0 <= k < n2 ==> #[trigger] g2_accepts(b@.subrange(16 + 48 * n1 + 96 * k, 112 + 48 * n1 + 96 * k)),
        r is Some ==> {
            &&& r.unwrap()@.len() == n2
            &&& forall|j: int| 0 <= j < n2 ==> (#[trigger] r.unwrap()@[j]).wf()
            &&& flat_g2(r.unwrap()@) == b@.subrange(16 + 48 * n1, 16 + 48 * n1 + 96 * n2)
        },
{
    let mut g2: Vec<G2Point> = Vec::new();
    let mut k: usize = 0;
    while k < n2
        invariant
            b@.len() == b.len(),
            16 + 48 * n1 + 96 * n2 <= b@.len(),
            k <= n2,
            g2@.len() == k,
            forall|j: int| 0 <= j < k ==> (#[trigger] g2@[j]).wf(),
            forall|j: int| 0 <= j < k ==> #[trigger] g2_accepts(b@.subrange(16 + 48 * n1 + 96 * j, 112 + 48 * n1 + 96 * j)),
            flat_g2(g2@) == b@.subrange(16 + 48 * n1, 16 + 48 * n1 + 96 * k),
        decreases n2 - k,
    {
        let chunk = vstd::slice::slice_subrange(b, 16 + 48 * n1 + 96 * k, 112 + 48 * n1 + 96 * k);
        match decode_g2(chunk) {
            None => {
                return None;
            },
            Some(p) => {
                let ghost prev = g2@;
                g2.push(p);
                assert(g2@.drop_last() == prev);
                assert(b@.subrange(16 + 48 * n1, 16 + 48 * n1 + 96 * (k + 1)) =~= b@.subrange(16 + 48 * n1, 16 + 48 * n1 + 96 * k) + chunk@);
            },
        }
        k = k + 1;
    }
    Some(g2)
}

proof fn lemma_encoding_parts(g1: Seq<G1Point>, g2: Seq<G2Point>)
    requires
        g1.len() <= u64::MAX,
        g2.len() <= u64::MAX,
    ensures
        ({
            let e = srs_encoding(g1, g2);
            let n1 = g1.len() as int;
            &&& e.len() == 16 + 48 * n1 + 96 * g2.len()
            &&& le64_value(e.subrange(0, 8)) == g1.len()
            &&& le64_value(e.subrange(8 + 48 * n1, 16 + 48 * n1)) == g2.len()
            &&& forall|k: int| 0 <= k < n1 ==> #[trigger] e.subrange(8 + 48 * k, 56 + 48 * k) == g1[k].bytes@
            &&& forall|k: int| 0 <= k < g2.len() ==> #[trigger] e.subrange(16 + 48 * n1 + 96 * k, 112 + 48 * n1 + 96 * k) == g2[k].bytes@
        }),
{
    let e = srs_encoding(g1, g2);
    let n1 = g1.len() as int;
    let f1 = flat_g1(g1);
    let f2 = flat_g2(g2);
    lemma_flat_g1_len(g1);
    lemma_flat_g2_len(g2);
    lemma_le64_round_trip(g1.len() as u64);
    lemma_le64_round_trip(g2.len() as u64);
    assert(e.subrange(0, 8) =~= le64(g1.len() as u64));
    assert(e.subrange(8 + 48 * n1, 16 + 48 * n1) =~= le64(g2.len() as u64));
    assert forall|k: int| 0 <= k < n1 implies #[trigger] e.subrange(8 + 48 * k, 56 + 48 * k) == g1[k].bytes@ by {
        lemma_flat_g1(g1, k);
        assert(e.subrange(8 + 48 * k, 56 + 48 * k) =~= f1.subrange(48 * k, 48 * k + 48));
    }
    assert forall|k: int| 0 <= k < g2.len() implies #[trigger] e.subrange(16 + 48 * n1 + 96 * k, 112 + 48 * n1 + 96 * k) == g2[k].bytes@ by {
        lemma_flat_g2(g2, k);
        assert(e.subrange(16 + 48 * n1 + 96 * k, 112 + 48 * n1 + 96 * k) =~= f2.subrange(96 * k, 96 * k + 96));
    }
}

/// The byte form of valid parameters reads back: it is framed, each of its
/// points is valid, and any parameters with the same byte form hold the same
/// points.
pub proof fn lemma_srs_round_trip(pp: &PublicParameters, other: &PublicParameters)
    requires
        pp.wf(),
        pp.g1().len() <= u64::MAX,
        pp.g2().len() <= u64::MAX,
        other.g1().len() <= u64::MAX,
        other.g2().len() <= u64::MAX,
    ensures
        srs_framed(srs_encoding(pp.g1(), pp.g2())),
        srs_points_valid(srs_encoding(pp.g1(), pp.g2())),
        srs_encoding(other.g1(), other.g2()) == srs_encoding(pp.g1(), pp.g2()) ==> {
            &&& other.g1().len() == pp.g1().len()
            &&& other.g2().len() == pp.g2().len()
            &&& forall|k: int| 0 <= k < pp.g1().len() ==> (#[trigger] other.g1()[k]).bytes@ == pp.g1()[k].bytes@
            &&& forall|k: int| 0 <= k < pp.g2().len() ==> (#[trigger] other.g2()[k]).bytes@ == pp.g2()[k].bytes@
        },
{
    lemma_encoding_parts(pp.g1(), pp.g2());
    lemma_encoding_parts(other.g1(), other.g2());
    let e = srs_encoding(pp.g1(), pp.g2());
    let n1 = pp.g1().len() as int;
    assert forall|k: int| 0 <= k < n1 implies #[trigger] g1_accepts(e.subrange(8 + 48 * k, 56 + 48 * k)) by {
        assert(pp.g1()[k].wf());
    }
    assert forall|k: int| 0 <= k < pp.g2().len() implies #[trigger] g2_accepts(e.subrange(16 + 48 * n1 + 96 * k, 112 + 48 * n1 + 96 * k)) by {
        assert(pp.g2()[k].wf());
    }
    if srs_encoding(other.g1(), other.g2()) == e {
        assert forall|k: int| 0 <= k < pp.g1().len() implies (#[trigger] other.g1()[k]).bytes@ == pp.g1()[k].bytes@ by {
            assert(e.subrange(8 + 48 * k, 56 + 48 * k) == pp.g1()[k].bytes@);
        }
        assert forall|k: int| 0 <= k < pp.g2().len() implies (#[trigger] other.g2()[k]).bytes@ == pp.g2()[k].bytes@ by {
            assert(e.subrange(16 + 48 * n1 + 96 * k, 112 + 48 * n1 + 96 * k) == pp.g2()[k].bytes@);
        }
    }
}

/// A commitment's bytes read back as the same commitment, and a proof's bytes
/// as the same proof.
pub proof fn lemma_point_round_trip(c: Commitment, p: PointProof)
    requires
        c.0.wf(),
        p.0.wf(),
        p.1.wf(),
    ensures
        c.0.bytes@.len() == 48 && g1_accepts(c.0.bytes@),
        ({
            let b = p.0.bytes@ + p.1.bytes@;
            &&& b.len() == 96
            &&& g1_accepts(b.subrange(0, 48))
            &&& g1_accepts(b.subrange(48, 96))
            &&& b.subrange(0, 48) == p.0.bytes@
            &&& b.subrange(48, 96) == p.1.bytes@
        }),
{
    let b = p.0.bytes@ + p.1.bytes@;
    assert(b.subrange(0, 48) =~= p.0.bytes@);
    assert(b.subrange(48, 96) =~= p.1.bytes@);
}

/// Whether `c` reads as a commitment and `p` as a proof.
pub open spec fn opening_decodes(c: Seq<u8>, p: Seq<u8>) -> bool {
    &&& c.len() == 48
    &&& g1_accepts(c)
    &&& p.len() == 96
    &&& g1_accepts(p.subrange(0, 48))
    &&& g1_accepts(p.subrange(48, 96))
}

/// Reads a commitment and a proof from their bytes and verifies the opening
/// at `index` for `value`: `Deserialize` unless both read, and otherwise
/// what `PointProof::verify` decides.
pub fn verify_encoded(
    pp: &PublicParameters,
    commitment: &[u8],
    proof: &[u8],
    index: usize,
    value: &Scalar,
) -> (r: Result<(), Error>)
    requires
        pp.wf(),
        value.wf(),
    ensures
        !opening_decodes(commitment@, proof@) ==> r == Err::<(), Error>(Error::Deserialize),
        opening_decodes(commitment@, proof@) ==> {
            &&& r is Ok <==> {
                &&& index < pp.g1().len()
                &&& g1_log(commitment@) % modulus() == (pp.g1()[index as int].log() * value.value()
                    + g1_log(proof@.subrange(0, 48)) % modulus() + g1_log(proof@.subrange(48, 96))
                    % modulus()) % modulus()
            }
            &&& r is Err ==> r == Err::<(), Error>(Error::VerifyReject)
        },
{
    let c = match Commitment::from_bytes(commitment) {
        Ok(c) => c,
        Err(e) => {
            return Err(e);
        },
    };
    let p = match PointProof::from_bytes(proof) {
        Ok(p) => p,
        Err(e) => {
            return Err(e);
        },
    };
    proof {
        assert(p.0.bytes@ == proof@.subrange(0, 48));
        assert(p.1.bytes@ == proof@.subrange(48, 96));
    }
    p.verify(pp, &c, index, value)
}

} // verus!
