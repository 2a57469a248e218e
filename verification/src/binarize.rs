use vstd::prelude::*;

use crate::frame::Frame;
use crate::frame::FrameView;
use crate::frame::Pixel;
use crate::frame::luma_bin;
use crate::frame::luma1000;

verus! {

/// Pure white, the value every pixel above the threshold becomes.
pub open spec fn white_pixel() -> Pixel {
    Pixel { r: 255, g: 255, b: 255 }
}

/// Pure black, the value every pixel at or below the threshold becomes.
pub open spec fn black_pixel() -> Pixel {
    Pixel { r: 0, g: 0, b: 0 }
}

/// How many pixels have a luma bin at or below `t`.
pub open spec fn count_le(s: Seq<Pixel>, t: int) -> int
    decreases s.len(),
{
    if s.len() == 0 {
        0
    } else {
        count_le(s.drop_last(), t) + if luma_bin(s.last()) <= t {
            1int
        } else {
            0int
        }
    }
}

/// The sum of the luma bins of the pixels whose bin is at or below `t`.
pub open spec fn sum_le(s: Seq<Pixel>, t: int) -> int
    decreases s.len(),
{
    if s.len() == 0 {
        0
    } else {
        sum_le(s.drop_last(), t) + if luma_bin(s.last()) <= t {
            luma_bin(s.last())
        } else {
            0int
        }
    }
}

/// How many pixels have luma bin exactly `v`.
pub open spec fn count_eq(s: Seq<Pixel>, v: int) -> int
    decreases s.len(),
{
    if s.len() == 0 {
        0
    } else {
        count_eq(s.drop_last(), v) + if luma_bin(s.last()) == v {
            1int
        } else {
            0int
        }
    }
}

/// Numerator of the between-class variance at threshold `t`, with the
/// positive constant factor `N^2` dropped: `(s0*c1 - s1*c0)^2`, where class 0
/// holds the pixels with bin at most `t` and class 1 the rest.
pub open spec fn bcv_num(s: Seq<Pixel>, t: int) -> int {
    let c0 = count_le(s, t);
    let c1 = s.len() - c0;
    let s0 = sum_le(s, t);
    let s1 = sum_le(s, 255) - s0;
    (s0 * c1 - s1 * c0) * (s0 * c1 - s1 * c0)
}

/// Denominator of the between-class variance at threshold `t`: `c0 * c1`.
/// When it is zero one class is empty and the variance is zero.
pub open spec fn bcv_den(s: Seq<Pixel>, t: int) -> int {
    count_le(s, t) * (s.len() - count_le(s, t))
}

/// Exact comparison of two non-negative fractions `n1/d1 > n2/d2`, where a
/// zero denominator stands for the value zero (its numerator is then zero
/// too).
pub open spec fn frac_gt(n1: int, d1: int, n2: int, d2: int) -> bool {
    &&& d1 != 0
    &&& if d2 == 0 {
        n1 > 0
    } else {
        n1 * d2 > n2 * d1
    }
}

/// The between-class variance at `t1` strictly exceeds the one at `t2`.
pub open spec fn bcv_gt(s: Seq<Pixel>, t1: int, t2: int) -> bool {
    frac_gt(bcv_num(s, t1), bcv_den(s, t1), bcv_num(s, t2), bcv_den(s, t2))
}

/// The smallest maximizer of the between-class variance among thresholds
/// `0..k`: the running best of a left-to-right scan that replaces only on a
/// strict improvement.
pub open spec fn otsu_upto(s: Seq<Pixel>, k: int) -> int
    decreases k,
{
    if k <= 1 {
        0
    } else {
        let b = otsu_upto(s, k - 1);
        if bcv_gt(s, k - 1, b) {
            k - 1
        } else {
            b
        }
    }
}

/// The Otsu threshold of a pixel sequence: the smallest of the 256 luma
/// thresholds that maximize the between-class variance.
pub open spec fn otsu_of(s: Seq<Pixel>) -> int {
    otsu_upto(s, 256)
}

/// `t` is the Otsu threshold: no threshold has strictly greater
/// between-class variance, and `t` strictly beats every smaller threshold.
pub open spec fn is_otsu(s: Seq<Pixel>, t: int) -> bool {
    &&& 0 <= t < 256
    &&& forall|u: int| 0 <= u < 256 ==> !bcv_gt(s, u, t)
    &&& forall|u: int| 0 <= u < t ==> bcv_gt(s, t, u)
}

/// The frame with every pixel of luma strictly above threshold `t` turned
/// white and every other pixel turned black.
pub open spec fn spec_binarize_with(f: FrameView, t: int) -> FrameView {
    FrameView {
        width: f.width,
        height: f.height,
        pixels: Seq::new(
            f.pixels.len(),
            |i: int|
                if luma1000(f.pixels[i]) > 1000 * t {
                    white_pixel()
                } else {
                    black_pixel()
                },
        ),
    }
}

/// Global-threshold binarization: every pixel of luma strictly above the
/// Otsu threshold of the frame becomes white, the rest black.
pub open spec fn spec_binarize(f: FrameView) -> FrameView {
    spec_binarize_with(f, otsu_of(f.pixels))
}

/// A fraction that beats the running best also beats everything the best
/// already covered, for non-negative fractions where a zero denominator
/// carries a zero numerator.
pub proof fn lemma_frac_gt_shift(
    na: int,
    da: int,
    nb: int,
    db: int,
    nc: int,
    dc: int,
)
    requires
        na >= 0,
        da >= 0,
        nb >= 0,
        db >= 0,
        nc >= 0,
        dc >= 0,
        da == 0 ==> na == 0,
        db == 0 ==> nb == 0,
        dc == 0 ==> nc == 0,
        !frac_gt(na, da, nb, db),
        frac_gt(nc, dc, nb, db),
    ensures
        frac_gt(nc, dc, na, da),
        !frac_gt(na, da, nc, dc),
{
    if db == 0 {
        // b stands for zero, so a is zero as well and c is positive.
        assert(dc != 0 && nc > 0);
        if da == 0 {
            assert(frac_gt(nc, dc, na, da));
        } else {
            // !frac_gt(a, b) with db == 0 means na == 0 or da == 0.
            assert(na == 0);
            assert(nc * da > 0) by (nonlinear_arith)
                requires
                    nc > 0,
                    da > 0,
            ;
            assert(nc * da > na * dc);
        }
        assert(na * dc <= 0) by (nonlinear_arith)
            requires
                na == 0 || da == 0,
                na >= 0,
                dc >= 0,
                da == 0 ==> na == 0,
        ;
        assert(nc * da >= 0) by (nonlinear_arith)
            requires
                nc >= 0,
                da >= 0,
        ;
    } else {
        // b is a genuine fraction: na/da <= nb/db < nc/dc.
        assert(dc != 0);
        assert(nc * db > nb * dc);
        if da == 0 {
            assert(frac_gt(nc, dc, na, da) == (nc > 0));
            assert(nc * db > nb * dc >= 0) by (nonlinear_arith)
                requires
                    nc * db > nb * dc,
                    nb >= 0,
                    dc >= 0,
            ;
            assert(nc > 0) by (nonlinear_arith)
                requires
                    nc * db > 0,
                    nc >= 0,
                    db > 0,
            ;
        } else {
            assert(na * db <= nb * da);
            assert(nc * da > na * dc) by (nonlinear_arith)
                requires
                    nc * db > nb * dc,
                    na * db <= nb * da,
                    da > 0,
                    db > 0,
                    dc > 0,
                    na >= 0,
                    nb >= 0,
                    nc >= 0,
            ;
        }
        assert(!frac_gt(na, da, nc, dc));
    }
}

/// A luma bin is one of 0..=255.
pub proof fn lemma_luma_bin_range(p: Pixel)
    ensures
        0 <= luma_bin(p) <= 255,
{
    assert(0 <= luma1000(p) <= 255000);
    assert(0 <= luma1000(p) / 1000 <= 255);
}

/// Cumulative class counts and sums stay within their natural bounds.
pub proof fn lemma_cum_bounds(s: Seq<Pixel>, t: int)
    ensures
        0 <= count_le(s, t) <= s.len(),
        count_le(s, 255) == s.len(),
        0 <= sum_le(s, t) <= sum_le(s, 255),
        sum_le(s, t) <= 255 * count_le(s, t),
        sum_le(s, 255) - sum_le(s, t) <= 255 * (s.len() - count_le(s, t)),
    decreases s.len(),
{
    if s.len() > 0 {
        lemma_cum_bounds(s.drop_last(), t);
        lemma_luma_bin_range(s.last());
    }
}

/// Moving the threshold up by one bin picks up exactly the pixels of that
/// bin, in count and in sum.
pub proof fn lemma_cum_step(s: Seq<Pixel>, t: int)
    ensures
        count_le(s, t) == count_le(s, t - 1) + count_eq(s, t),
        sum_le(s, t) == sum_le(s, t - 1) + t * count_eq(s, t),
    decreases s.len(),
{
    if s.len() > 0 {
        lemma_cum_step(s.drop_last(), t);
        assert(t * (count_eq(s.drop_last(), t) + 1) == t * count_eq(s.drop_last(), t) + t)
            by (nonlinear_arith);
    }
}

/// Below bin zero nothing is counted.
pub proof fn lemma_cum_neg(s: Seq<Pixel>)
    ensures
        count_le(s, -1) == 0,
        sum_le(s, -1) == 0,
        count_eq(s, -1) == 0,
    decreases s.len(),
{
    if s.len() > 0 {
        lemma_cum_neg(s.drop_last());
        lemma_luma_bin_range(s.last());
    }
}

/// Compares two products of 128-bit numbers by 64-bit factors exactly:
/// decides `a * b > c * d` without the products ever being formed in one
/// machine word.
fn prod_gt(a: u128, b: u128, c: u128, d: u128) -> (r: bool)
    requires
        b < 0x10000000000000000,
        d < 0x10000000000000000,
    ensures
        r == (a * b > c * d),
{
    let ah = a >> 64;
    let al = a & 0xffffffffffffffff;
    let ch = c >> 64;
    let cl = c & 0xffffffffffffffff;
    proof {
        assert(a == (a >> 64) * 0x10000000000000000 + (a & 0xffffffffffffffff) && (a >> 64)
            < 0x10000000000000000 && (a & 0xffffffffffffffff) < 0x10000000000000000)
            by (bit_vector);
        assert(c == (c >> 64) * 0x10000000000000000 + (c & 0xffffffffffffffff) && (c >> 64)
            < 0x10000000000000000 && (c & 0xffffffffffffffff) < 0x10000000000000000)
            by (bit_vector);
        assert(ah * b <= (0x10000000000000000 - 1) * (0x10000000000000000 - 1))
            by (nonlinear_arith)
            requires
                0 <= ah < 0x10000000000000000,
                0 <= b < 0x10000000000000000,
        ;
        assert(al * b <= (0x10000000000000000 - 1) * (0x10000000000000000 - 1))
            by (nonlinear_arith)
            requires
                0 <= al < 0x10000000000000000,
                0 <= b < 0x10000000000000000,
        ;
        assert(ch * d <= (0x10000000000000000 - 1) * (0x10000000000000000 - 1))
            by (nonlinear_arith)
            requires
                0 <= ch < 0x10000000000000000,
                0 <= d < 0x10000000000000000,
        ;
        assert(cl * d <= (0x10000000000000000 - 1) * (0x10000000000000000 - 1))
            by (nonlinear_arith)
            requires
                0 <= cl < 0x10000000000000000,
                0 <= d < 0x10000000000000000,
        ;
    }
    let pa_hi = ah * b;
    let pa_lo = al * b;
    let pc_hi = ch * d;
    let pc_lo = cl * d;
    proof {
        lemma_split128(pa_lo);
        lemma_split128(pc_lo);
    }
    let hi1 = pa_hi + (pa_lo >> 64);
    let lo1 = pa_lo & 0xffffffffffffffff;
    let hi2 = pc_hi + (pc_lo >> 64);
    let lo2 = pc_lo & 0xffffffffffffffff;
    proof {
        assert(a * b == hi1 * 0x10000000000000000 + lo1) by (nonlinear_arith)
            requires
                a == ah * 0x10000000000000000 + al,
                pa_hi == ah * b,
                pa_lo == al * b,
                pa_lo == (pa_lo >> 64) * 0x10000000000000000 + (pa_lo & 0xffffffffffffffff),
                hi1 == pa_hi + (pa_lo >> 64),
                lo1 == pa_lo & 0xffffffffffffffff,
        ;
        assert(c * d == hi2 * 0x10000000000000000 + lo2) by (nonlinear_arith)
            requires
                c == ch * 0x10000000000000000 + cl,
                pc_hi == ch * d,
                pc_lo == cl * d,
                pc_lo == (pc_lo >> 64) * 0x10000000000000000 + (pc_lo & 0xffffffffffffffff),
                hi2 == pc_hi + (pc_lo >> 64),
                lo2 == pc_lo & 0xffffffffffffffff,
        ;
    }
    hi1 > hi2 || (hi1 == hi2 && lo1 > lo2)
}

/// A 128-bit value equals its top half shifted up plus its bottom half.
proof fn lemma_split128(x: u128)
    ensures
        x == (x >> 64) * 0x10000000000000000 + (x & 0xffffffffffffffff),
        (x >> 64) < 0x10000000000000000,
        (x & 0xffffffffffffffff) < 0x10000000000000000,
{
    assert(x == (x >> 64) * 0x10000000000000000 + (x & 0xffffffffffffffff) && (x >> 64)
        < 0x10000000000000000 && (x & 0xffffffffffffffff) < 0x10000000000000000) by (bit_vector);
}

/// Computes the 256-bin luma histogram of a pixel list.
fn histogram(data: &Vec<Pixel>) -> (r: Vec<u32>)
    requires
        data@.len() <= 0x10000000,
    ensures
        r@.len() == 256,
        forall|v: int| 0 <= v < 256 ==> r@[v] == count_eq(data@, v),
{
    let mut hist: Vec<u32> = Vec::new();
    let mut v: usize = 0;
    while v < 256
        invariant
            v <= 256,
            hist@.len() == v,
            forall|k: int| 0 <= k < v ==> hist@[k] == 0,
        decreases 256 - v,
    {
        hist.push(0);
        v = v + 1;
    }
    proof {
        lemma_count_eq_empty(data@.take(0));
    }
    let n: usize = data.len();
    let mut i: usize = 0;
    while i < n
        invariant
            i <= n,
            n == data@.len() <= 0x10000000,
            hist@.len() == 256,
            forall|k: int| 0 <= k < 256 ==> hist@[k] == count_eq(data@.take(i as int), k),
            forall|k: int| 0 <= k < 256 ==> hist@[k] <= i,
        decreases n - i,
    {
        let p = data[i];
        let lum = crate::frame::luma1000_of(p) / 1000;
        proof {
            lemma_luma_bin_range(p);
            assert(data@.take(i + 1).drop_last() =~= data@.take(i as int));
            assert(forall|k: int|
                0 <= k < 256 ==> count_eq(data@.take(i + 1), k) == count_eq(
                    data@.take(i as int),
                    k,
                ) + (if luma_bin(data@[i as int]) == k {
                    1int
                } else {
                    0int
                }));
        }
        let idx: usize = lum as usize;
        hist[idx] = hist[idx] + 1;
        i = i + 1;
    }
    proof {
        assert(data@.take(n as int) =~= data@);
    }
    hist
}

/// An empty pixel list has an empty histogram.
proof fn lemma_count_eq_empty(s: Seq<Pixel>)
    requires
        s.len() == 0,
    ensures
        forall|k: int| count_eq(s, k) == 0,
{
}

/// Between-class variance terms are non-negative, and when the denominator
/// vanishes (one class empty) the numerator vanishes with it.
pub proof fn lemma_bcv_nonneg(s: Seq<Pixel>, t: int)
    ensures
        bcv_num(s, t) >= 0,
        bcv_den(s, t) >= 0,
        bcv_den(s, t) == 0 ==> bcv_num(s, t) == 0,
{
    lemma_cum_bounds(s, t);
    let c0 = count_le(s, t);
    let c1 = s.len() - c0;
    let s0 = sum_le(s, t);
    let s1 = sum_le(s, 255) - s0;
    let d = s0 * c1 - s1 * c0;
    assert(d * d >= 0) by (nonlinear_arith);
    assert(c0 * c1 >= 0) by (nonlinear_arith)
        requires
            c0 >= 0,
            c1 >= 0,
    ;
    if c0 * c1 == 0 {
        assert(c0 == 0 || c1 == 0) by (nonlinear_arith)
            requires
                c0 * c1 == 0,
        ;
        assert(d == 0) by (nonlinear_arith)
            requires
                d == s0 * c1 - s1 * c0,
                c0 == 0 || c1 == 0,
                0 <= s0 <= 255 * c0,
                0 <= s1 <= 255 * c1,
        ;
    }
}

/// The running best of the left-to-right scan is the smallest maximizer of
/// the thresholds seen so far.
proof fn lemma_otsu_upto_props(s: Seq<Pixel>, k: int)
    requires
        1 <= k <= 256,
    ensures
        0 <= otsu_upto(s, k) < k,
        forall|u: int| 0 <= u < k ==> !bcv_gt(s, u, otsu_upto(s, k)),
        forall|u: int| 0 <= u < otsu_upto(s, k) ==> bcv_gt(s, otsu_upto(s, k), u),
    decreases k,
{
    if k == 1 {
        assert(!bcv_gt(s, 0, 0));
    } else {
        lemma_otsu_upto_props(s, k - 1);
        let b = otsu_upto(s, k - 1);
        if bcv_gt(s, k - 1, b) {
            assert forall|u: int| 0 <= u < k - 1 implies #[trigger] bcv_gt(s, k - 1, u)
                && !bcv_gt(s, u, k - 1) by {
                assert(!bcv_gt(s, u, otsu_upto(s, k - 1)));
                lemma_bcv_nonneg(s, u);
                lemma_bcv_nonneg(s, b);
                lemma_bcv_nonneg(s, k - 1);
                lemma_frac_gt_shift(
                    bcv_num(s, u),
                    bcv_den(s, u),
                    bcv_num(s, b),
                    bcv_den(s, b),
                    bcv_num(s, k - 1),
                    bcv_den(s, k - 1),
                );
            }
            assert(otsu_upto(s, k) == k - 1);
            assert forall|u: int| 0 <= u < k implies !bcv_gt(s, u, otsu_upto(s, k)) by {
                if u < k - 1 {
                    assert(bcv_gt(s, k - 1, u));
                    assert(!bcv_gt(s, u, k - 1));
                } else {
                    assert(!bcv_gt(s, k - 1, k - 1));
                }
            }
            assert forall|u: int| 0 <= u < otsu_upto(s, k) implies bcv_gt(s, otsu_upto(s, k), u) by {
                assert(bcv_gt(s, k - 1, u));
            }
        } else {
            assert(otsu_upto(s, k) == b);
            assert forall|u: int| 0 <= u < k implies !bcv_gt(s, u, otsu_upto(s, k)) by {
                if u < k - 1 {
                    assert(!bcv_gt(s, u, otsu_upto(s, k - 1)));
                } else {
                    assert(!bcv_gt(s, k - 1, b));
                }
            }
            assert forall|u: int| 0 <= u < otsu_upto(s, k) implies bcv_gt(s, otsu_upto(s, k), u) by {
                assert(bcv_gt(s, otsu_upto(s, k - 1), u));
            }
        }
    }
}

/// The scanned threshold really is the Otsu threshold.
pub proof fn lemma_otsu_is_otsu(s: Seq<Pixel>)
    ensures
        is_otsu(s, otsu_of(s)),
{
    lemma_otsu_upto_props(s, 256);
}

/// Only one threshold satisfies the Otsu characterization.
pub proof fn lemma_is_otsu_unique(s: Seq<Pixel>, t1: int, t2: int)
    requires
        is_otsu(s, t1),
        is_otsu(s, t2),
    ensures
        t1 == t2,
{
    if t1 < t2 {
        assert(bcv_gt(s, t2, t1));
        assert(!bcv_gt(s, t2, t1));
    }
    if t2 < t1 {
        assert(bcv_gt(s, t1, t2));
        assert(!bcv_gt(s, t1, t2));
    }
}

/// Computes the between-class variance of threshold `t` as an exact pair
/// (numerator, denominator), from the cumulative count and sum at `t` and
/// the totals.
fn bcv_at(
    c0: u64,
    s0: u64,
    n: u64,
    stot: u64,
    Ghost(s): Ghost<Seq<Pixel>>,
    Ghost(t): Ghost<int>,
) -> (r: (u128, u128))
    requires
        n == s.len(),
        n <= 0x10000000,
        c0 == count_le(s, t),
        s0 == sum_le(s, t),
        stot == sum_le(s, 255),
    ensures
        r.0 == bcv_num(s, t),
        r.1 == bcv_den(s, t),
        r.1 < 0x10000000000000000,
{
    proof {
        lemma_cum_bounds(s, t);
    }
    let c1: u64 = n - c0;
    let s1: u64 = stot - s0;
    proof {
        assert((s0 as int) * (c1 as int) < 0x100000000000000000000000000000000 && (s1 as int) * (
        c0 as int) < 0x100000000000000000000000000000000) by (nonlinear_arith)
            requires
                0 <= s0 < 0x10000000000000000,
                0 <= c1 < 0x10000000000000000,
                0 <= s1 < 0x10000000000000000,
                0 <= c0 < 0x10000000000000000,
        ;
    }
    let p: u128 = (s0 as u128) * (c1 as u128);
    let q: u128 = (s1 as u128) * (c0 as u128);
    proof {
        assert(p <= 255 * (c0 as int) * (c1 as int) && q <= 255 * (c0 as int) * (c1 as int))
            by (nonlinear_arith)
            requires
                p == (s0 as int) * (c1 as int),
                q == (s1 as int) * (c0 as int),
                0 <= s0 <= 255 * (c0 as int),
                0 <= s1 <= 255 * (c1 as int),
                c0 >= 0,
                c1 >= 0,
        ;
        assert(255 * (c0 as int) * (c1 as int) < 0x10000000000000000) by (nonlinear_arith)
            requires
                0 <= c0 <= 0x10000000,
                0 <= c1 <= 0x10000000,
        ;
    }
    let ad: u128 = if p >= q {
        p - q
    } else {
        q - p
    };
    proof {
        assert(ad * ad < 0x100000000000000000000000000000000) by (nonlinear_arith)
            requires
                0 <= ad < 0x10000000000000000,
        ;
        let di = (s0 as int) * (c1 as int) - (s1 as int) * (c0 as int);
        assert(ad * ad == di * di) by (nonlinear_arith)
            requires
                di == p - q,
                ad == p - q || ad == q - p,
        ;
        assert((c0 as int) * (c1 as int) < 0x10000000000000000) by (nonlinear_arith)
            requires
                0 <= c0 <= 0x10000000,
                0 <= c1 <= 0x10000000,
        ;
    }
    let num: u128 = ad * ad;
    let den: u128 = (c0 as u128) * (c1 as u128);
    (num, den)
}

/// Computes the Otsu threshold of a pixel list: the smallest of the 256 luma
/// thresholds maximizing the between-class variance, found by an exact
/// integer scan of the luma histogram.
pub fn otsu_threshold(data: &Vec<Pixel>) -> (t: u8)
    requires
        data@.len() <= 0x10000000,
    ensures
        t as int == otsu_of(data@),
        is_otsu(data@, t as int),
{
    let ghost s = data@;
    let hist = histogram(data);
    proof {
        lemma_cum_neg(s);
        lemma_cum_bounds(s, -1);
    }
    // First pass: the total luma sum over all bins.
    let mut stot: u64 = 0;
    let mut v: usize = 0;
    while v < 256
        invariant
            v <= 256,
            s == data@,
            s.len() <= 0x10000000,
            hist@.len() == 256,
            forall|k: int| 0 <= k < 256 ==> hist@[k] == count_eq(s, k),
            stot == sum_le(s, v - 1),
        decreases 256 - v,
    {
        proof {
            lemma_cum_step(s, v as int);
            lemma_cum_bounds(s, v as int);
            lemma_cum_bounds(s, v - 1);
            assert((v as int) * count_eq(s, v as int) <= 255 * 0x10000000) by (nonlinear_arith)
                requires
                    0 <= v < 256,
                    0 <= count_eq(s, v as int) <= 0x10000000,
            ;
            assert(0 <= (v as int) * count_eq(s, v as int)) by (nonlinear_arith)
                requires
                    0 <= v,
                    0 <= count_eq(s, v as int),
            ;
            assert(sum_le(s, v as int) <= 255 * count_le(s, v as int) <= 255 * 0x10000000);
        }
        stot = stot + (v as u64) * (hist[v] as u64);
        v = v + 1;
    }
    proof {
        assert(stot == sum_le(s, 255));
        lemma_cum_step(s, 0);
        lemma_cum_bounds(s, 0);
    }
    // Second pass: running cumulative count and sum, keeping the first
    // threshold whose variance strictly beats the best so far.
    let n64: u64 = data.len() as u64;
    let mut c0: u64 = hist[0] as u64;
    let mut s0: u64 = 0;
    proof {
        assert(sum_le(s, 0) == 0 * count_eq(s, 0) + sum_le(s, -1));
        assert(0 * count_eq(s, 0) == 0) by (nonlinear_arith);
    }
    let b = bcv_at(c0, s0, n64, stot, Ghost(s), Ghost(0int));
    let mut best_t: usize = 0;
    let mut best_num: u128 = b.0;
    let mut best_den: u128 = b.1;
    let mut t: usize = 1;
    while t < 256
        invariant
            1 <= t <= 256,
            best_t < t,
            s == data@,
            s.len() <= 0x10000000,
            n64 == s.len(),
            hist@.len() == 256,
            forall|k: int| 0 <= k < 256 ==> hist@[k] == count_eq(s, k),
            stot == sum_le(s, 255),
            c0 == count_le(s, t - 1),
            s0 == sum_le(s, t - 1),
            best_num == bcv_num(s, best_t as int),
            best_den == bcv_den(s, best_t as int),
            best_den < 0x10000000000000000,
            best_t as int == otsu_upto(s, t as int),
        decreases 256 - t,
    {
        proof {
            lemma_cum_step(s, t as int);
            lemma_cum_bounds(s, t as int);
            lemma_cum_bounds(s, t - 1);
            assert(0 <= (t as int) * count_eq(s, t as int) <= 255 * 0x10000000)
                by (nonlinear_arith)
                requires
                    0 <= t < 256,
                    0 <= count_eq(s, t as int) <= 0x10000000,
            ;
            assert(sum_le(s, t as int) <= 255 * count_le(s, t as int) <= 255 * 0x10000000);
        }
        c0 = c0 + (hist[t] as u64);
        s0 = s0 + (t as u64) * (hist[t] as u64);
        let cur = bcv_at(c0, s0, n64, stot, Ghost(s), Ghost(t as int));
        let gt: bool = if cur.1 == 0 {
            false
        } else if best_den == 0 {
            cur.0 > 0
        } else {
            prod_gt(cur.0, best_den, best_num, cur.1)
        };
        proof {
            assert(gt == bcv_gt(s, t as int, best_t as int));
        }
        if gt {
            best_t = t;
            best_num = cur.0;
            best_den = cur.1;
        }
        t = t + 1;
    }
    proof {
        lemma_otsu_is_otsu(s);
    }
    best_t as u8
}

/// Binarizes a frame: computes the Otsu threshold of its luma histogram and
/// turns every pixel of luma strictly above it pure white, every other pixel
/// pure black. A feature-detection aid, never part of the composite output.
pub fn binarize(f: &Frame) -> (r: Frame)
    requires
        f.wf(),
    ensures
        r.wf(),
        r@ == spec_binarize(f@),
{
    proof {
        crate::frame::lemma_dims_bound(f.width as int, f.height as int);
    }
    let t = otsu_threshold(&f.data);
    let thresh: u32 = 1000 * (t as u32);
    let n: usize = f.data.len();
    let mut data: Vec<Pixel> = Vec::new();
    let mut i: usize = 0;
    while i < n
        invariant
            i <= n,
            n == f@.pixels.len(),
            thresh == 1000 * (t as int),
            t as int == otsu_of(f@.pixels),
            data@.len() == i,
            forall|k: int|
                0 <= k < i ==> data@[k] == (if luma1000(f@.pixels[k]) > 1000 * (t as int) {
                    white_pixel()
                } else {
                    black_pixel()
                }),
        decreases n - i,
    {
        let p = f.data[i];
        let l = crate::frame::luma1000_of(p);
        if l > thresh {
            data.push(Pixel { r: 255, g: 255, b: 255 });
        } else {
            data.push(Pixel { r: 0, g: 0, b: 0 });
        }
        i = i + 1;
    }
    let out = Frame { width: f.width, height: f.height, data };
    proof {
        assert(out@ =~= spec_binarize(f@));
    }
    out
}

/// On a frame holding only pure black and pure white, the cumulative counts
/// are flat below bin 255: nothing sits in the bins between.
proof fn lemma_bilevel_cums(s: Seq<Pixel>)
    requires
        forall|i: int| 0 <= i < s.len() ==> s[i] == white_pixel() || s[i] == black_pixel(),
    ensures
        forall|t: int| 0 <= t < 255 ==> #[trigger] count_le(s, t) == count_le(s, 0),
        forall|t: int| 0 <= t < 255 ==> #[trigger] sum_le(s, t) == 0,
        count_le(s, 255) == s.len(),
        sum_le(s, 255) == 255 * (s.len() - count_le(s, 0)),
    decreases s.len(),
{
    assert(luma_bin(white_pixel()) == 255);
    assert(luma_bin(black_pixel()) == 0);
    if s.len() > 0 {
        lemma_bilevel_cums(s.drop_last());
        assert(s.last() == white_pixel() || s.last() == black_pixel());
        assert forall|t: int| 0 <= t < 255 implies #[trigger] count_le(s, t) == count_le(s, 0) by {
            assert(count_le(s.drop_last(), t) == count_le(s.drop_last(), 0));
        }
        assert forall|t: int| 0 <= t < 255 implies #[trigger] sum_le(s, t) == 0 by {
            assert(sum_le(s.drop_last(), t) == 0);
        }
    }
}

/// On a black-and-white frame the Otsu threshold is bin zero: every split
/// below white has the same between-class variance, so the smallest
/// threshold wins.
proof fn lemma_bilevel_otsu(s: Seq<Pixel>)
    requires
        forall|i: int| 0 <= i < s.len() ==> s[i] == white_pixel() || s[i] == black_pixel(),
    ensures
        otsu_of(s) == 0,
{
    lemma_bilevel_cums(s);
    assert forall|u: int| 0 <= u < 256 implies !bcv_gt(s, u, 0) by {
        if u < 255 {
            assert(count_le(s, u) == count_le(s, 0));
            assert(sum_le(s, u) == 0);
            assert(sum_le(s, 0) == 0);
            assert(bcv_num(s, u) == bcv_num(s, 0));
            assert(bcv_den(s, u) == bcv_den(s, 0));
        } else {
            assert(count_le(s, 255) == s.len());
            assert(bcv_den(s, u) == s.len() * (s.len() - s.len()));
            assert(s.len() * 0 == 0) by (nonlinear_arith);
        }
    }
    assert(is_otsu(s, 0));
    lemma_otsu_is_otsu(s);
    lemma_is_otsu_unique(s, 0, otsu_of(s));
}

/// Binarization is idempotent: binarizing a frame that is already the result
/// of a binarization changes nothing, for any input frame.
pub proof fn lemma_binarize_idempotent(f: FrameView)
    ensures
        spec_binarize(spec_binarize(f)) == spec_binarize(f),
{
    let g = spec_binarize(f);
    assert forall|i: int| 0 <= i < g.pixels.len() implies g.pixels[i] == white_pixel()
        || g.pixels[i] == black_pixel() by {}
    lemma_bilevel_otsu(g.pixels);
    assert(luma1000(white_pixel()) == 255000);
    assert(luma1000(black_pixel()) == 0);
    assert(spec_binarize(g).pixels =~= g.pixels);
    assert(spec_binarize(g) =~= g);
}

} // verus!
