use vstd::prelude::*;

verus! {

/// Longest descriptor the matcher accepts; keeps every Hamming distance
/// below 2^30 so distances fit comfortably in 32 bits.
pub const MAX_DESC_LEN: usize = 0x0800_0000;

/// A correspondence between descriptor `query_idx` of frame A and descriptor
/// `train_idx` of frame B, with their Hamming distance.
#[derive(Clone, Copy, Debug, PartialEq, Eq, Structural)]
pub struct Match {
    pub query_idx: usize,
    pub train_idx: usize,
    pub distance: u32,
}

/// The number of set bits of a byte.
pub open spec fn pop8(b: u8) -> int {
    (b & 1) + ((b >> 1) & 1) + ((b >> 2) & 1) + ((b >> 3) & 1) + ((b >> 4) & 1) + ((b >> 5) & 1) + (
    (b >> 6) & 1) + ((b >> 7) & 1)
}

/// A byte has at most eight set bits.
pub proof fn lemma_pop8_bound(b: u8)
    ensures
        0 <= pop8(b) <= 8,
{
    assert((b & 1) <= 1 && ((b >> 1) & 1) <= 1 && ((b >> 2) & 1) <= 1 && ((b >> 3) & 1) <= 1 && ((b
        >> 4) & 1) <= 1 && ((b >> 5) & 1) <= 1 && ((b >> 6) & 1) <= 1 && ((b >> 7) & 1) <= 1)
        by (bit_vector);
}

/// Counts the set bits of a byte.
pub fn popcount8(b: u8) -> (r: u32)
    ensures
        r == pop8(b),
        r <= 8,
{
    proof {
        lemma_pop8_bound(b);
    }
    ((b & 1) as u32) + (((b >> 1) & 1) as u32) + (((b >> 2) & 1) as u32) + (((b >> 3) & 1)
        as u32) + (((b >> 4) & 1) as u32) + (((b >> 5) & 1) as u32) + (((b >> 6) & 1) as u32) + (((b
        >> 7) & 1) as u32)
}

/// The Hamming distance of two equally long binary descriptors: the number
/// of bit positions where they differ.
pub open spec fn spec_hamming(a: Seq<u8>, b: Seq<u8>) -> int
    decreases a.len(),
{
    if a.len() == 0 {
        0
    } else {
        spec_hamming(a.drop_last(), b.drop_last()) + pop8(a.last() ^ b.last())
    }
}

/// A Hamming distance lies between 0 and eight bits per byte.
pub proof fn lemma_hamming_bound(a: Seq<u8>, b: Seq<u8>)
    ensures
        0 <= spec_hamming(a, b) <= 8 * a.len(),
    decreases a.len(),
{
    if a.len() > 0 {
        lemma_hamming_bound(a.drop_last(), b.drop_last());
        lemma_pop8_bound(a.last() ^ b.last());
    }
}

/// Computes the Hamming distance of two descriptors of equal length.
pub fn hamming(a: &Vec<u8>, b: &Vec<u8>) -> (r: u32)
    requires
        a@.len() == b@.len(),
        a@.len() <= MAX_DESC_LEN,
    ensures
        r == spec_hamming(a@, b@),
{
    let n: usize = a.len();
    let mut d: u32 = 0;
    let mut i: usize = 0;
    while i < n
        invariant
            i <= n,
            n == a@.len(),
            a@.len() == b@.len(),
            n <= MAX_DESC_LEN,
            d == spec_hamming(a@.take(i as int), b@.take(i as int)),
            d <= 8 * i,
        decreases n - i,
    {
        proof {
            assert(a@.take(i + 1).drop_last() =~= a@.take(i as int));
            assert(b@.take(i + 1).drop_last() =~= b@.take(i as int));
        }
        d = d + popcount8(a[i] ^ b[i]);
        i = i + 1;
    }
    proof {
        assert(a@.take(n as int) =~= a@);
        assert(b@.take(n as int) =~= b@);
    }
    d
}

/// The index of the nearest descriptor to `q` in `descs` under Hamming
/// distance; ties go to the smallest index, as a brute-force scan that keeps
/// the first minimum would leave them.
pub open spec fn spec_nearest(descs: Seq<Seq<u8>>, q: Seq<u8>) -> int
    decreases descs.len(),
{
    if descs.len() <= 1 {
        0
    } else {
        let r = spec_nearest(descs.drop_last(), q);
        if spec_hamming(q, descs.last()) < spec_hamming(q, descs[r]) {
            descs.len() - 1
        } else {
            r
        }
    }
}

/// `j` is the nearest neighbour of `q` in `descs`: no descriptor is closer,
/// and every earlier one is strictly farther.
pub open spec fn is_nearest(descs: Seq<Seq<u8>>, q: Seq<u8>, j: int) -> bool {
    &&& 0 <= j < descs.len()
    &&& forall|k: int|
        0 <= k < descs.len() ==> spec_hamming(q, #[trigger] descs[k]) >= spec_hamming(q, descs[j])
    &&& forall|k: int|
        0 <= k < j ==> spec_hamming(q, #[trigger] descs[k]) > spec_hamming(q, descs[j])
}

/// The scan index really is the nearest neighbour.
pub proof fn lemma_nearest_is_nearest(descs: Seq<Seq<u8>>, q: Seq<u8>)
    requires
        descs.len() >= 1,
    ensures
        is_nearest(descs, q, spec_nearest(descs, q)),
    decreases descs.len(),
{
    if descs.len() > 1 {
        lemma_nearest_is_nearest(descs.drop_last(), q);
        assert(forall|k: int|
            0 <= k < descs.len() - 1 ==> descs.drop_last()[k] == #[trigger] descs[k]);
    }
}

/// Finds the nearest descriptor to `q` and its distance by brute-force scan.
pub fn nearest(descs: &Vec<Vec<u8>>, q: &Vec<u8>) -> (r: (usize, u32))
    requires
        descs@.len() >= 1,
        forall|k: int| 0 <= k < descs@.len() ==> (#[trigger] descs@[k])@.len() == q@.len(),
        q@.len() <= MAX_DESC_LEN,
    ensures
        r.0 == spec_nearest(descs@.map_values(|d: Vec<u8>| d@), q@),
        r.1 == spec_hamming(q@, descs@[r.0 as int]@),
        r.0 < descs@.len(),
    {
    let ghost ds = descs@.map_values(|d: Vec<u8>| d@);
    let mut best: usize = 0;
    let mut best_d: u32 = hamming(q, &descs[0]);
    let mut i: usize = 1;
    while i < descs.len()
        invariant
            1 <= i <= ds.len(),
            ds == descs@.map_values(|d: Vec<u8>| d@),
            ds.len() == descs@.len(),
            forall|k: int| 0 <= k < descs@.len() ==> (#[trigger] descs@[k])@.len() == q@.len(),
            q@.len() <= MAX_DESC_LEN,
            best < i,
            best == spec_nearest(ds.take(i as int), q@),
            best_d == spec_hamming(q@, ds[best as int]),
        decreases ds.len() - i,
    {
        let d = hamming(q, &descs[i]);
        proof {
            assert(ds.take(i + 1).drop_last() =~= ds.take(i as int));
            assert(forall|k: int| 0 <= k < i + 1 ==> ds.take(i + 1)[k] == #[trigger] ds[k]);
            lemma_nearest_is_nearest(ds.take(i + 1), q@);
        }
        if d < best_d {
            best = i;
            best_d = d;
        }
        i = i + 1;
    }
    proof {
        assert(ds.take(ds.len() as int) =~= ds);
    }
    (best, best_d)
}

/// Descriptor `i` of A and its nearest neighbour `j` in B form a good match:
/// the cross-check holds (`i` is in turn the nearest neighbour of `j` in A)
/// and their distance is below the acceptance threshold of 20.
pub open spec fn good_match(a: Seq<Seq<u8>>, b: Seq<Seq<u8>>, i: int) -> bool {
    &&& b.len() > 0
    &&& spec_hamming(a[i], b[spec_nearest(b, a[i])]) < 20
    &&& spec_nearest(a, b[spec_nearest(b, a[i])]) == i
}

/// The match record that descriptor `i` of A produces.
pub open spec fn spec_match(a: Seq<Seq<u8>>, b: Seq<Seq<u8>>, i: int) -> Match {
    Match {
        query_idx: i as usize,
        train_idx: spec_nearest(b, a[i]) as usize,
        distance: spec_hamming(a[i], b[spec_nearest(b, a[i])]) as u32,
    }
}

/// The good matches among the first `upto` descriptors of A, in query order.
pub open spec fn good_matches(a: Seq<Seq<u8>>, b: Seq<Seq<u8>>, upto: int) -> Seq<Match>
    decreases upto,
{
    if upto <= 0 {
        Seq::empty()
    } else {
        good_matches(a, b, upto - 1) + (if good_match(a, b, upto - 1) {
            seq![spec_match(a, b, upto - 1)]
        } else {
            Seq::empty()
        })
    }
}

/// Brute-force descriptor matching under Hamming distance with cross-check:
/// a pair (i, j) is kept only when each is the other's nearest neighbour and
/// their distance is strictly below 20. All descriptors must share one
/// length, `desc_len`.
pub fn matches(descs_a: &Vec<Vec<u8>>, descs_b: &Vec<Vec<u8>>, desc_len: usize) -> (r: Vec<Match>)
    requires
        forall|k: int| 0 <= k < descs_a@.len() ==> (#[trigger] descs_a@[k])@.len() == desc_len,
        forall|k: int| 0 <= k < descs_b@.len() ==> (#[trigger] descs_b@[k])@.len() == desc_len,
        desc_len <= MAX_DESC_LEN,
    ensures
        r@ == good_matches(
            descs_a@.map_values(|d: Vec<u8>| d@),
            descs_b@.map_values(|d: Vec<u8>| d@),
            descs_a@.len() as int,
        ),
{
    let ghost av = descs_a@.map_values(|d: Vec<u8>| d@);
    let ghost bv = descs_b@.map_values(|d: Vec<u8>| d@);
    let mut out: Vec<Match> = Vec::new();
    if descs_b.len() == 0 {
        proof {
            lemma_good_matches_empty_b(av, bv, av.len() as int);
        }
        return out;
    }
    let mut i: usize = 0;
    while i < descs_a.len()
        invariant
            i <= descs_a@.len(),
            av == descs_a@.map_values(|d: Vec<u8>| d@),
            bv == descs_b@.map_values(|d: Vec<u8>| d@),
            bv.len() == descs_b@.len() > 0,
            av.len() == descs_a@.len(),
            forall|k: int| 0 <= k < descs_a@.len() ==> (#[trigger] descs_a@[k])@.len() == desc_len,
            forall|k: int| 0 <= k < descs_b@.len() ==> (#[trigger] descs_b@[k])@.len() == desc_len,
            desc_len <= MAX_DESC_LEN,
            out@ == good_matches(av, bv, i as int),
        decreases descs_a@.len() - i,
    {
        let (j, d) = nearest(descs_b, &descs_a[i]);
        if d < 20 {
            let (i2, _back_d) = nearest(descs_a, &descs_b[j]);
            if i2 == i {
                out.push(Match { query_idx: i, train_idx: j, distance: d });
                proof {
                    assert(good_match(av, bv, i as int));
                    assert(out@ =~= good_matches(av, bv, i + 1));
                }
            } else {
                proof {
                    assert(!good_match(av, bv, i as int));
                    assert(out@ =~= good_matches(av, bv, i + 1));
                }
            }
        } else {
            proof {
                assert(!good_match(av, bv, i as int));
                assert(out@ =~= good_matches(av, bv, i + 1));
            }
        }
        i = i + 1;
    }
    out
}

/// With no descriptors in B there are no good matches.
proof fn lemma_good_matches_empty_b(a: Seq<Seq<u8>>, b: Seq<Seq<u8>>, upto: int)
    requires
        b.len() == 0,
    ensures
        good_matches(a, b, upto) == Seq::<Match>::empty(),
    decreases upto,
{
    if upto > 0 {
        lemma_good_matches_empty_b(a, b, upto - 1);
        assert(good_matches(a, b, upto) =~= Seq::<Match>::empty());
    }
}

/// Every match in a good-match list arises from some query index.
proof fn lemma_good_matches_member(a: Seq<Seq<u8>>, b: Seq<Seq<u8>>, upto: int, m: Match)
    requires
        good_matches(a, b, upto).contains(m),
    ensures
        exists|i: int|
            0 <= i < upto && #[trigger] good_match(a, b, i) && m == spec_match(a, b, i),
    decreases upto,
{
    if upto > 0 {
        let s = good_matches(a, b, upto);
        let prefix = good_matches(a, b, upto - 1);
        let idx = choose|idx: int| 0 <= idx < s.len() && s[idx] == m;
        if idx < prefix.len() {
            assert(prefix[idx] == m);
            assert(prefix.contains(m));
            lemma_good_matches_member(a, b, upto - 1, m);
        } else {
            assert(good_match(a, b, upto - 1) && m == spec_match(a, b, upto - 1));
        }
    }
}

/// Every accepted match satisfies the mutual-nearest-neighbour cross-check
/// and has Hamming distance strictly below 20; its recorded distance is the
/// true distance of the paired descriptors.
pub proof fn lemma_matches_are_good(a: Seq<Seq<u8>>, b: Seq<Seq<u8>>, desc_len: int, m: Match)
    requires
        forall|k: int| 0 <= k < a.len() ==> (#[trigger] a[k]).len() == desc_len,
        forall|k: int| 0 <= k < b.len() ==> (#[trigger] b[k]).len() == desc_len,
        0 <= desc_len <= MAX_DESC_LEN,
        a.len() <= usize::MAX,
        b.len() <= usize::MAX,
        good_matches(a, b, a.len() as int).contains(m),
    ensures
        m.query_idx < a.len(),
        m.train_idx < b.len(),
        is_nearest(b, a[m.query_idx as int], m.train_idx as int),
        is_nearest(a, b[m.train_idx as int], m.query_idx as int),
        m.distance < 20,
        m.distance == spec_hamming(a[m.query_idx as int], b[m.train_idx as int]),
{
    lemma_good_matches_member(a, b, a.len() as int, m);
    let i = choose|i: int|
        0 <= i < a.len() && #[trigger] good_match(a, b, i) && m == spec_match(a, b, i);
    lemma_nearest_is_nearest(b, a[i]);
    let j = spec_nearest(b, a[i]);
    lemma_nearest_is_nearest(a, b[j]);
    lemma_hamming_bound(a[i], b[j]);
    assert(m.query_idx as int == i);
    assert(m.train_idx as int == j);
}

} // verus!
