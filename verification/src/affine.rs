use vstd::prelude::*;

use crate::StackError;

verus! {

/// Sub-pixel coordinate scale: 16 units per pixel.
pub const SUBPIXEL: i64 = 16;

/// Bound on point coordinates, in sub-pixel units: 16384 pixels. Keeps every
/// determinant and reprojection product within 128-bit integers.
pub const COORD_LIMIT: i64 = 0x40000;

/// Squared inlier tolerance in sub-pixel units: (3 pixels * 16)^2.
pub const TOL_SQ: i128 = 2304;

/// A 2D image location in fixed-point coordinates, `SUBPIXEL` units per
/// pixel, as a keypoint detector reports it.
#[derive(Clone, Copy, Debug, PartialEq, Eq, Structural)]
pub struct Point {
    pub x: i64,
    pub y: i64,
}

/// The coordinates of `p` respect the machine bound.
pub open spec fn in_bounds(p: Point) -> bool {
    &&& -COORD_LIMIT <= p.x <= COORD_LIMIT
    &&& -COORD_LIMIT <= p.y <= COORD_LIMIT
}

/// Every point of the list respects the machine bound.
pub open spec fn all_in_bounds(ps: Seq<Point>) -> bool {
    forall|i: int| 0 <= i < ps.len() ==> in_bounds(#[trigger] ps[i])
}

/// A 2D affine transform with exact rational entries over one common
/// denominator: it maps (x, y) to
/// ((m00 x + m01 y + m02) / den, (m10 x + m11 y + m12) / den).
#[derive(Clone, Copy, Debug, PartialEq, Eq, Structural)]
pub struct AffineTransform {
    pub m00: i128,
    pub m01: i128,
    pub m02: i128,
    pub m10: i128,
    pub m11: i128,
    pub m12: i128,
    pub den: i128,
}

impl AffineTransform {
    /// Entry bounds that every fitted transform satisfies; they keep the
    /// inlier test and the warper inside 128-bit arithmetic.
    pub open spec fn wf(self) -> bool {
        &&& self.den != 0
        &&& -0x8000000000 <= self.den <= 0x8000000000
        &&& -0x8000000000 <= self.m00 <= 0x8000000000
        &&& -0x8000000000 <= self.m01 <= 0x8000000000
        &&& -0x8000000000 <= self.m10 <= 0x8000000000
        &&& -0x8000000000 <= self.m11 <= 0x8000000000
        &&& -0x200000000000000 <= self.m02 <= 0x200000000000000
        &&& -0x200000000000000 <= self.m12 <= 0x200000000000000
    }

    /// The transform is the identity map: the linear part is `den` times the
    /// unit matrix and the translation is zero.
    pub open spec fn is_identity(self) -> bool {
        &&& self.m00 == self.den
        &&& self.m11 == self.den
        &&& self.m01 == 0
        &&& self.m02 == 0
        &&& self.m10 == 0
        &&& self.m12 == 0
    }
}

/// The determinant deciding whether three points are in general position:
/// twice the signed area of their triangle.
pub open spec fn det3(p0: Point, p1: Point, p2: Point) -> int {
    p0.x * (p1.y - p2.y) - p0.y * (p1.x - p2.x) + (p1.x * p2.y - p2.x * p1.y)
}

/// Three points are collinear (or not pairwise distinct) exactly when their
/// triangle is degenerate.
pub open spec fn collinear(p0: Point, p1: Point, p2: Point) -> bool {
    det3(p0, p1, p2) == 0
}

/// Cramer numerator of the coefficient of `x` in `a x + b y + c == u`
/// interpolation through three samples.
pub open spec fn cramer_a(
    x0: int,
    y0: int,
    x1: int,
    y1: int,
    x2: int,
    y2: int,
    u0: int,
    u1: int,
    u2: int,
) -> int {
    u0 * (y1 - y2) - y0 * (u1 - u2) + (u1 * y2 - u2 * y1)
}

/// Cramer numerator of the coefficient of `y`.
pub open spec fn cramer_b(
    x0: int,
    y0: int,
    x1: int,
    y1: int,
    x2: int,
    y2: int,
    u0: int,
    u1: int,
    u2: int,
) -> int {
    x0 * (u1 - u2) - u0 * (x1 - x2) + (x1 * u2 - x2 * u1)
}

/// Cramer numerator of the constant coefficient.
pub open spec fn cramer_c(
    x0: int,
    y0: int,
    x1: int,
    y1: int,
    x2: int,
    y2: int,
    u0: int,
    u1: int,
    u2: int,
) -> int {
    x0 * (y1 * u2 - y2 * u1) - y0 * (x1 * u2 - x2 * u1) + u0 * (x1 * y2 - x2 * y1)
}

/// The affine transform interpolating the three pairs `b_i -> a_i`, written
/// over the common denominator `det3(b0, b1, b2)`; meaningful only when that
/// determinant is non-zero.
pub open spec fn spec_fit(
    b0: Point,
    b1: Point,
    b2: Point,
    a0: Point,
    a1: Point,
    a2: Point,
) -> AffineTransform {
    let x0 = b0.x as int;
    let y0 = b0.y as int;
    let x1 = b1.x as int;
    let y1 = b1.y as int;
    let x2 = b2.x as int;
    let y2 = b2.y as int;
    AffineTransform {
        m00: cramer_a(x0, y0, x1, y1, x2, y2, a0.x as int, a1.x as int, a2.x as int) as i128,
        m01: cramer_b(x0, y0, x1, y1, x2, y2, a0.x as int, a1.x as int, a2.x as int) as i128,
        m02: cramer_c(x0, y0, x1, y1, x2, y2, a0.x as int, a1.x as int, a2.x as int) as i128,
        m10: cramer_a(x0, y0, x1, y1, x2, y2, a0.y as int, a1.y as int, a2.y as int) as i128,
        m11: cramer_b(x0, y0, x1, y1, x2, y2, a0.y as int, a1.y as int, a2.y as int) as i128,
        m12: cramer_c(x0, y0, x1, y1, x2, y2, a0.y as int, a1.y as int, a2.y as int) as i128,
        den: det3(b0, b1, b2) as i128,
    }
}

/// The squared reprojection error of mapping `src` and comparing against
/// `dst`, scaled by the squared denominator so it stays integral.
pub open spec fn err_sq(t: AffineTransform, src: Point, dst: Point) -> int {
    let ex = t.m00 * src.x + t.m01 * src.y + t.m02 - dst.x * t.den;
    let ey = t.m10 * src.x + t.m11 * src.y + t.m12 - dst.y * t.den;
    ex * ex + ey * ey
}

/// The pair is an inlier of `t`: its reprojection error is within the
/// 3-pixel tolerance.
pub open spec fn is_inlier(t: AffineTransform, src: Point, dst: Point) -> bool {
    err_sq(t, src, dst) <= TOL_SQ * t.den * t.den
}

/// Multiplies two 128-bit integers whose stated magnitude bounds keep the
/// product representable, and carries the bound to the result.
pub(crate) fn mul_bounded(a: i128, b: i128, Ghost(ba): Ghost<int>, Ghost(bb): Ghost<int>) -> (r:
    i128)
    requires
        0 <= ba,
        0 <= bb,
        -ba <= a <= ba,
        -bb <= b <= bb,
        ba * bb < 0x40000000000000000000000000000000,
    ensures
        r == a * b,
        -(ba * bb) <= r <= ba * bb,
{
    proof {
        assert(-(ba * bb) <= a * b <= ba * bb) by (nonlinear_arith)
            requires
                0 <= ba,
                0 <= bb,
                -ba <= a <= ba,
                -bb <= b <= bb,
        ;
    }
    a * b
}

/// Computes the general-position determinant of three points.
fn det3_exec(p0: Point, p1: Point, p2: Point) -> (r: i128)
    requires
        in_bounds(p0),
        in_bounds(p1),
        in_bounds(p2),
    ensures
        r == det3(p0, p1, p2),
        -0x8000000000 <= r <= 0x8000000000,
{
    let t1 = mul_bounded(
        p0.x as i128,
        (p1.y as i128) - (p2.y as i128),
        Ghost(0x40000),
        Ghost(0x80000),
    );
    let t2 = mul_bounded(
        p0.y as i128,
        (p1.x as i128) - (p2.x as i128),
        Ghost(0x40000),
        Ghost(0x80000),
    );
    let t3 = mul_bounded(p1.x as i128, p2.y as i128, Ghost(0x40000), Ghost(0x40000));
    let t4 = mul_bounded(p2.x as i128, p1.y as i128, Ghost(0x40000), Ghost(0x40000));
    t1 - t2 + (t3 - t4)
}

/// Computes one Cramer row (the coefficients of `x`, `y` and the constant)
/// for interpolating `u0 u1 u2` over the three base points.
fn cramer_row(
    x0: i64,
    y0: i64,
    x1: i64,
    y1: i64,
    x2: i64,
    y2: i64,
    u0: i64,
    u1: i64,
    u2: i64,
) -> (r: (i128, i128, i128))
    requires
        -COORD_LIMIT <= x0 <= COORD_LIMIT,
        -COORD_LIMIT <= y0 <= COORD_LIMIT,
        -COORD_LIMIT <= x1 <= COORD_LIMIT,
        -COORD_LIMIT <= y1 <= COORD_LIMIT,
        -COORD_LIMIT <= x2 <= COORD_LIMIT,
        -COORD_LIMIT <= y2 <= COORD_LIMIT,
        -COORD_LIMIT <= u0 <= COORD_LIMIT,
        -COORD_LIMIT <= u1 <= COORD_LIMIT,
        -COORD_LIMIT <= u2 <= COORD_LIMIT,
    ensures
        r.0 == cramer_a(
            x0 as int,
            y0 as int,
            x1 as int,
            y1 as int,
            x2 as int,
            y2 as int,
            u0 as int,
            u1 as int,
            u2 as int,
        ),
        r.1 == cramer_b(
            x0 as int,
            y0 as int,
            x1 as int,
            y1 as int,
            x2 as int,
            y2 as int,
            u0 as int,
            u1 as int,
            u2 as int,
        ),
        r.2 == cramer_c(
            x0 as int,
            y0 as int,
            x1 as int,
            y1 as int,
            x2 as int,
            y2 as int,
            u0 as int,
            u1 as int,
            u2 as int,
        ),
        -0x8000000000 <= r.0 <= 0x8000000000,
        -0x8000000000 <= r.1 <= 0x8000000000,
        -0x200000000000000 <= r.2 <= 0x200000000000000,
{
    let a1 = mul_bounded(u0 as i128, (y1 as i128) - (y2 as i128), Ghost(0x40000), Ghost(0x80000));
    let a2 = mul_bounded(y0 as i128, (u1 as i128) - (u2 as i128), Ghost(0x40000), Ghost(0x80000));
    let a3 = mul_bounded(u1 as i128, y2 as i128, Ghost(0x40000), Ghost(0x40000));
    let a4 = mul_bounded(u2 as i128, y1 as i128, Ghost(0x40000), Ghost(0x40000));
    let va = a1 - a2 + (a3 - a4);

    let b1 = mul_bounded(x0 as i128, (u1 as i128) - (u2 as i128), Ghost(0x40000), Ghost(0x80000));
    let b2 = mul_bounded(u0 as i128, (x1 as i128) - (x2 as i128), Ghost(0x40000), Ghost(0x80000));
    let b3 = mul_bounded(x1 as i128, u2 as i128, Ghost(0x40000), Ghost(0x40000));
    let b4 = mul_bounded(x2 as i128, u1 as i128, Ghost(0x40000), Ghost(0x40000));
    let vb = b1 - b2 + (b3 - b4);

    let c1a = mul_bounded(y1 as i128, u2 as i128, Ghost(0x40000), Ghost(0x40000));
    let c1b = mul_bounded(y2 as i128, u1 as i128, Ghost(0x40000), Ghost(0x40000));
    let c1 = mul_bounded(x0 as i128, c1a - c1b, Ghost(0x40000), Ghost(0x2000000000));
    let c2a = mul_bounded(x1 as i128, u2 as i128, Ghost(0x40000), Ghost(0x40000));
    let c2b = mul_bounded(x2 as i128, u1 as i128, Ghost(0x40000), Ghost(0x40000));
    let c2 = mul_bounded(y0 as i128, c2a - c2b, Ghost(0x40000), Ghost(0x2000000000));
    let c3a = mul_bounded(x1 as i128, y2 as i128, Ghost(0x40000), Ghost(0x40000));
    let c3b = mul_bounded(x2 as i128, y1 as i128, Ghost(0x40000), Ghost(0x40000));
    let c3 = mul_bounded(u0 as i128, c3a - c3b, Ghost(0x40000), Ghost(0x2000000000));
    let vc = c1 - c2 + c3;

    (va, vb, vc)
}

/// Fits the affine transform that maps the three source points `b` exactly
/// onto the three destination points `a`, by Cramer's rule over the common
/// denominator `det3(b0, b1, b2)`. Returns nothing when the source points
/// are collinear (or not distinct), since no unique transform exists.
pub fn fit_affine(b0: Point, b1: Point, b2: Point, a0: Point, a1: Point, a2: Point) -> (r: Option<
    AffineTransform,
>)
    requires
        in_bounds(b0),
        in_bounds(b1),
        in_bounds(b2),
        in_bounds(a0),
        in_bounds(a1),
        in_bounds(a2),
    ensures
        match r {
            Some(t) => !collinear(b0, b1, b2) && t == spec_fit(b0, b1, b2, a0, a1, a2) && t.wf(),
            None => collinear(b0, b1, b2),
        },
{
    let den = det3_exec(b0, b1, b2);
    if den == 0 {
        return None;
    }
    let row_x = cramer_row(b0.x, b0.y, b1.x, b1.y, b2.x, b2.y, a0.x, a1.x, a2.x);
    let row_y = cramer_row(b0.x, b0.y, b1.x, b1.y, b2.x, b2.y, a0.y, a1.y, a2.y);
    Some(
        AffineTransform {
            m00: row_x.0,
            m01: row_x.1,
            m02: row_x.2,
            m10: row_y.0,
            m11: row_y.1,
            m12: row_y.2,
            den,
        },
    )
}

/// Fitting three coincident pairs yields the identity transform: when each
/// source point equals its destination, every Cramer numerator collapses to
/// the determinant itself or to zero.
pub proof fn lemma_fit_coincident(b0: Point, b1: Point, b2: Point)
    requires
        in_bounds(b0),
        in_bounds(b1),
        in_bounds(b2),
    ensures
        spec_fit(b0, b1, b2, b0, b1, b2).is_identity(),
        spec_fit(b0, b1, b2, b0, b1, b2).den == det3(b0, b1, b2),
{
    let x0 = b0.x as int;
    let y0 = b0.y as int;
    let x1 = b1.x as int;
    let y1 = b1.y as int;
    let x2 = b2.x as int;
    let y2 = b2.y as int;
    lemma_det3_bound(b0, b1, b2);
    assert(cramer_a(x0, y0, x1, y1, x2, y2, x0, x1, x2) == det3(b0, b1, b2));
    assert(x0 * (x1 - x2) - x0 * (x1 - x2) + (x1 * x2 - x2 * x1) == 0) by (nonlinear_arith);
    assert(cramer_b(x0, y0, x1, y1, x2, y2, x0, x1, x2) == 0);
    assert(x0 * (y1 * x2 - y2 * x1) - y0 * (x1 * x2 - x2 * x1) + x0 * (x1 * y2 - x2 * y1) == 0)
        by (nonlinear_arith);
    assert(cramer_c(x0, y0, x1, y1, x2, y2, x0, x1, x2) == 0);
    assert(y0 * (y1 - y2) - y0 * (y1 - y2) + (y1 * y2 - y2 * y1) == 0) by (nonlinear_arith);
    assert(cramer_a(x0, y0, x1, y1, x2, y2, y0, y1, y2) == 0);
    assert(cramer_b(x0, y0, x1, y1, x2, y2, y0, y1, y2) == det3(b0, b1, b2));
    assert(x0 * (y1 * y2 - y2 * y1) - y0 * (x1 * y2 - x2 * y1) + y0 * (x1 * y2 - x2 * y1) == 0)
        by (nonlinear_arith);
    assert(cramer_c(x0, y0, x1, y1, x2, y2, y0, y1, y2) == 0);
}

/// The general-position determinant of bounded points fits in its stated
/// range.
pub proof fn lemma_det3_bound(p0: Point, p1: Point, p2: Point)
    requires
        in_bounds(p0),
        in_bounds(p1),
        in_bounds(p2),
    ensures
        -0x8000000000 <= det3(p0, p1, p2) <= 0x8000000000,
{
    assert(-0x2000000000 <= p0.x * (p1.y - p2.y) <= 0x2000000000) by (nonlinear_arith)
        requires
            -0x40000 <= p0.x <= 0x40000,
            -0x80000 <= p1.y - p2.y <= 0x80000,
    ;
    assert(-0x2000000000 <= p0.y * (p1.x - p2.x) <= 0x2000000000) by (nonlinear_arith)
        requires
            -0x40000 <= p0.y <= 0x40000,
            -0x80000 <= p1.x - p2.x <= 0x80000,
    ;
    assert(-0x1000000000 <= p1.x * p2.y <= 0x1000000000) by (nonlinear_arith)
        requires
            -0x40000 <= p1.x <= 0x40000,
            -0x40000 <= p2.y <= 0x40000,
    ;
    assert(-0x1000000000 <= p2.x * p1.y <= 0x1000000000) by (nonlinear_arith)
        requires
            -0x40000 <= p2.x <= 0x40000,
            -0x40000 <= p1.y <= 0x40000,
    ;
}

/// Under an identity transform every point is an inlier of itself: the
/// reprojection error is exactly zero.
pub proof fn lemma_identity_inlier(t: AffineTransform, p: Point)
    requires
        t.is_identity(),
    ensures
        err_sq(t, p, p) == 0,
        is_inlier(t, p, p),
{
    let ex = t.m00 * p.x + t.m01 * p.y + t.m02 - p.x * t.den;
    let ey = t.m10 * p.x + t.m11 * p.y + t.m12 - p.y * t.den;
    assert(t.m00 * p.x == p.x * t.den) by (nonlinear_arith)
        requires
            t.m00 == t.den,
    ;
    assert(t.m01 * p.y == 0) by (nonlinear_arith)
        requires
            t.m01 == 0,
    ;
    assert(t.m10 * p.x == 0) by (nonlinear_arith)
        requires
            t.m10 == 0,
    ;
    assert(t.m11 * p.y == p.y * t.den) by (nonlinear_arith)
        requires
            t.m11 == t.den,
    ;
    assert(ex == 0);
    assert(ey == 0);
    assert(ex * ex == 0 && ey * ey == 0) by (nonlinear_arith)
        requires
            ex == 0,
            ey == 0,
    ;
    assert(err_sq(t, p, p) == 0);
    assert(TOL_SQ * t.den * t.den >= 0) by (nonlinear_arith);
}

/// Decides whether the pair (`src`, `dst`) is an inlier of `t`.
fn is_inlier_exec(t: &AffineTransform, src: Point, dst: Point) -> (r: bool)
    requires
        t.wf(),
        in_bounds(src),
        in_bounds(dst),
    ensures
        r == is_inlier(*t, src, dst),
{
    let px = mul_bounded(t.m00, src.x as i128, Ghost(0x8000000000), Ghost(0x40000));
    let py = mul_bounded(t.m01, src.y as i128, Ghost(0x8000000000), Ghost(0x40000));
    let qx = mul_bounded(dst.x as i128, t.den, Ghost(0x40000), Ghost(0x8000000000));
    let ex = px + py + t.m02 - qx;
    let ux = mul_bounded(t.m10, src.x as i128, Ghost(0x8000000000), Ghost(0x40000));
    let uy = mul_bounded(t.m11, src.y as i128, Ghost(0x8000000000), Ghost(0x40000));
    let qy = mul_bounded(dst.y as i128, t.den, Ghost(0x40000), Ghost(0x8000000000));
    let ey = ux + uy + t.m12 - qy;
    let ex2 = mul_bounded(ex, ex, Ghost(0x800000000000000), Ghost(0x800000000000000));
    let ey2 = mul_bounded(ey, ey, Ghost(0x800000000000000), Ghost(0x800000000000000));
    let d2 = mul_bounded(t.den, t.den, Ghost(0x8000000000), Ghost(0x8000000000));
    let rhs = mul_bounded(TOL_SQ, d2, Ghost(2304), Ghost(0x40000000000000000000));
    proof {
        assert(2304 * t.den * t.den == 2304 * (t.den * t.den)) by (nonlinear_arith);
    }
    ex2 + ey2 <= rhs
}

/// How many of the pairs `src[i] -> dst[i]` are inliers of `t`.
pub open spec fn count_inliers(t: AffineTransform, dst: Seq<Point>, src: Seq<Point>) -> int
    decreases src.len(),
{
    if src.len() == 0 {
        0
    } else {
        count_inliers(t, dst.drop_last(), src.drop_last()) + if is_inlier(
            t,
            src.last(),
            dst.last(),
        ) {
            1int
        } else {
            0int
        }
    }
}

/// The inlier count stays within the pair count and reaches it exactly when
/// every pair is an inlier.
pub proof fn lemma_count_inliers_facts(t: AffineTransform, dst: Seq<Point>, src: Seq<Point>)
    requires
        dst.len() == src.len(),
    ensures
        0 <= count_inliers(t, dst, src) <= src.len(),
        count_inliers(t, dst, src) == src.len() <==> (forall|m: int|
            0 <= m < src.len() ==> is_inlier(t, #[trigger] src[m], dst[m])),
    decreases src.len(),
{
    if src.len() > 0 {
        lemma_count_inliers_facts(t, dst.drop_last(), src.drop_last());
        assert(forall|m: int| 0 <= m < src.len() - 1 ==> src.drop_last()[m] == #[trigger] src[m]);
        assert(forall|m: int| 0 <= m < dst.len() - 1 ==> dst.drop_last()[m] == #[trigger] dst[m]);
    }
}

/// Counts the inliers of `t` among the pairs `src[i] -> dst[i]`.
pub fn count_inliers_exec(t: &AffineTransform, dst: &Vec<Point>, src: &Vec<Point>) -> (r: usize)
    requires
        t.wf(),
        dst@.len() == src@.len(),
        all_in_bounds(dst@),
        all_in_bounds(src@),
    ensures
        r == count_inliers(*t, dst@, src@),
        r <= src@.len(),
{
    let n: usize = src.len();
    let mut c: usize = 0;
    let mut m: usize = 0;
    while m < n
        invariant
            m <= n,
            n == src@.len(),
            n == dst@.len(),
            t.wf(),
            all_in_bounds(dst@),
            all_in_bounds(src@),
            c == count_inliers(*t, dst@.take(m as int), src@.take(m as int)),
            c <= m,
        decreases n - m,
    {
        proof {
            assert(src@.take(m + 1).drop_last() =~= src@.take(m as int));
            assert(dst@.take(m + 1).drop_last() =~= dst@.take(m as int));
            assert(in_bounds(src@[m as int]));
            assert(in_bounds(dst@[m as int]));
        }
        if is_inlier_exec(t, src[m], dst[m]) {
            c = c + 1;
        }
        m = m + 1;
    }
    proof {
        assert(src@.take(n as int) =~= src@);
        assert(dst@.take(n as int) =~= dst@);
    }
    c
}

/// Every triple of the list is degenerate: no three points are distinct and
/// non-collinear.
pub open spec fn all_collinear(ps: Seq<Point>) -> bool {
    forall|i: int, j: int, k: int|
        0 <= i < j && j < k < ps.len() ==> #[trigger] collinear(ps[i], ps[j], ps[k])
}

/// The self-registration shape: both point lists are the same list of at
/// least ten points, and some early triple anchored at the first two points
/// is non-degenerate, so the deterministic sample scan meets it within its
/// iteration budget.
pub open spec fn coincident_nondegenerate(a: Seq<Point>, b: Seq<Point>) -> bool {
    &&& a == b
    &&& a.len() >= 10
    &&& exists|k: int| 2 <= k < b.len() && k < 2002 && !collinear(b[0], b[1], #[trigger] b[k])
}

/// The triple `(0, 1, k2)` precedes the scan position `(i, j, k)` in the
/// lexicographic order of sampled triples.
pub open spec fn sampled_before(k2: int, i: int, j: int, k: int) -> bool {
    i > 0 || j > 1 || k2 < k
}

/// Robustly fits the affine transform T with `T(points_b[i]) ~ points_a[i]`
/// by consensus over minimal samples: point triples are drawn in a fixed
/// order, each candidate is fitted exactly and scored by its inliers under
/// the 3-pixel tolerance, and the scan stops after 2000 samples or as soon
/// as a candidate explains every pair. The best candidate is accepted only
/// with at least 10 inliers; otherwise — including when the correspondences
/// are degenerate: too few, or collinear — the fit fails with
/// `AlignmentFailed`.
pub fn estimate_affine(points_a: &Vec<Point>, points_b: &Vec<Point>) -> (r: Result<
    (AffineTransform, usize),
    StackError,
>)
    requires
        points_a@.len() == points_b@.len(),
        all_in_bounds(points_a@),
        all_in_bounds(points_b@),
    ensures
        match r {
            Ok(tc) => tc.0.wf() && tc.1 == count_inliers(tc.0, points_a@, points_b@) && 10 <= tc.1
                <= points_a@.len(),
            Err(e) => e == StackError::AlignmentFailed,
        },
        points_a@.len() < 10 ==> r is Err,
        all_collinear(points_b@) ==> r is Err,
        coincident_nondegenerate(points_a@, points_b@) ==> (r matches Ok(tc) && tc.1
            == points_a@.len() && tc.0.is_identity() && (forall|m: int|
            0 <= m < points_b@.len() ==> is_inlier(tc.0, #[trigger] points_b@[m], points_a@[m]))),
{
    let n: usize = points_a.len();
    if n < 10 {
        return Err(StackError::AlignmentFailed);
    }
    let mut best_t: Option<AffineTransform> = None;
    let mut best_c: usize = 0;
    let mut i: usize = 0;
    let mut j: usize = 1;
    let mut k: usize = 2;
    let mut iters: usize = 0;
    while iters < 2000 && i + 2 < n && best_c < n
        invariant
            n == points_a@.len(),
            n == points_b@.len(),
            n >= 10,
            all_in_bounds(points_a@),
            all_in_bounds(points_b@),
            i < j,
            j < k,
            i + 2 < n ==> k < n,
            iters <= 2000,
            match best_t {
                Some(t) => t.wf() && best_c == count_inliers(t, points_a@, points_b@) && best_c
                    <= n,
                None => best_c == 0,
            },
            all_collinear(points_b@) ==> best_t is None,
            (points_a@ == points_b@ && best_t is Some) ==> best_t->Some_0.is_identity(),
            (i == 0 && j == 1) ==> iters == k - 2,
            (i > 0 || j > 1) ==> iters >= n - 2,
            (points_a@ == points_b@ && best_c < n) ==> (forall|k2: int|
                2 <= k2 < n && sampled_before(k2, i as int, j as int, k as int) ==> collinear(
                    points_b@[0],
                    points_b@[1],
                    #[trigger] points_b@[k2],
                )),
        decreases 2000 - iters,
    {
        proof {
            assert(in_bounds(points_b@[i as int]));
            assert(in_bounds(points_b@[j as int]));
            assert(in_bounds(points_b@[k as int]));
            assert(in_bounds(points_a@[i as int]));
            assert(in_bounds(points_a@[j as int]));
            assert(in_bounds(points_a@[k as int]));
        }
        let pb0 = points_b[i];
        let pb1 = points_b[j];
        let pb2 = points_b[k];
        let pa0 = points_a[i];
        let pa1 = points_a[j];
        let pa2 = points_a[k];
        match fit_affine(pb0, pb1, pb2, pa0, pa1, pa2) {
            Some(t) => {
                let c = count_inliers_exec(&t, points_a, points_b);
                proof {
                    if points_a@ == points_b@ {
                        assert(pa0 == pb0 && pa1 == pb1 && pa2 == pb2);
                        lemma_fit_coincident(pb0, pb1, pb2);
                        assert(t.is_identity());
                        assert forall|m: int| 0 <= m < n implies is_inlier(
                            t,
                            #[trigger] points_b@[m],
                            points_a@[m],
                        ) by {
                            lemma_identity_inlier(t, points_b@[m]);
                            assert(points_a@[m] == points_b@[m]);
                        }
                        lemma_count_inliers_facts(t, points_a@, points_b@);
                        assert(c == n);
                    }
                }
                if best_t.is_none() || c > best_c {
                    best_t = Some(t);
                    best_c = c;
                }
            },
            None => {
                proof {
                    assert(collinear(points_b@[i as int], points_b@[j as int], points_b@[k as int]));
                }
            },
        }
        k = k + 1;
        if k >= n {
            j = j + 1;
            k = j + 1;
        }
        if k >= n {
            i = i + 1;
            j = i + 1;
            k = j + 1;
        }
        iters = iters + 1;
    }
    proof {
        if coincident_nondegenerate(points_a@, points_b@) && best_c < n {
            let k2 = choose|k2: int|
                2 <= k2 < points_b@.len() && k2 < 2002 && !collinear(
                    points_b@[0],
                    points_b@[1],
                    #[trigger] points_b@[k2],
                );
            if i == 0 && j == 1 {
                assert(iters >= 2000);
                assert(k - 2 >= 2000);
                assert(sampled_before(k2, i as int, j as int, k as int));
            } else {
                assert(sampled_before(k2, i as int, j as int, k as int));
            }
            assert(collinear(points_b@[0], points_b@[1], points_b@[k2]));
            assert(false);
        }
        if coincident_nondegenerate(points_a@, points_b@) {
            assert(best_c == n);
            assert(best_t is Some);
            lemma_count_inliers_facts(best_t->Some_0, points_a@, points_b@);
        }
    }
    if best_c >= 10 {
        match best_t {
            Some(t) => Ok((t, best_c)),
            None => {
                proof {
                    assert(false);
                }
                Err(StackError::AlignmentFailed)
            },
        }
    } else {
        Err(StackError::AlignmentFailed)
    }
}

} // verus!
