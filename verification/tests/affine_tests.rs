use stellacomp::affine::{estimate_affine, fit_affine, AffineTransform, Point};
use stellacomp::StackError;

fn pt(x: i64, y: i64) -> Point {
    Point { x, y }
}

/// Applies the exact rational transform to a point, checking that the result
/// is integral, and returns it.
fn apply(t: &AffineTransform, p: Point) -> (i64, i64) {
    let nx = t.m00 * (p.x as i128) + t.m01 * (p.y as i128) + t.m02;
    let ny = t.m10 * (p.x as i128) + t.m11 * (p.y as i128) + t.m12;
    assert_eq!(nx % t.den, 0);
    assert_eq!(ny % t.den, 0);
    ((nx / t.den) as i64, (ny / t.den) as i64)
}

/// A 4x3 grid of twelve points, 1 pixel (16 units) apart.
fn grid() -> Vec<Point> {
    let mut v = Vec::new();
    for gy in 0..3i64 {
        for gx in 0..4i64 {
            v.push(pt(16 * gx, 16 * gy));
        }
    }
    v
}

#[test]
fn fit_affine_interpolates_translation() {
    let b = [pt(0, 0), pt(16, 0), pt(0, 16)];
    let a = [pt(160, 80), pt(176, 80), pt(160, 96)];
    let t = fit_affine(b[0], b[1], b[2], a[0], a[1], a[2]).unwrap();
    for i in 0..3 {
        assert_eq!(apply(&t, b[i]), (a[i].x, a[i].y));
    }
}

#[test]
fn fit_affine_rejects_collinear_sample() {
    let b = [pt(0, 0), pt(16, 16), pt(32, 32)];
    let a = [pt(0, 0), pt(16, 16), pt(32, 32)];
    assert!(fit_affine(b[0], b[1], b[2], a[0], a[1], a[2]).is_none());
}

#[test]
fn estimate_affine_recovers_translation() {
    let points_b = grid();
    let points_a: Vec<Point> = points_b.iter().map(|p| pt(p.x + 160, p.y + 80)).collect();
    let (t, count) = estimate_affine(&points_a, &points_b).unwrap();
    assert_eq!(count, points_b.len());
    for p in &points_b {
        assert_eq!(apply(&t, *p), (p.x + 160, p.y + 80));
    }
}

#[test]
fn estimate_affine_coincident_points_yield_identity() {
    let points = grid();
    let (t, count) = estimate_affine(&points, &points).unwrap();
    assert_eq!(count, points.len());
    for p in &points {
        assert_eq!(apply(&t, *p), (p.x, p.y));
    }
}

#[test]
fn estimate_affine_too_few_points_fails() {
    let points = vec![pt(0, 0), pt(16, 0)];
    assert_eq!(
        estimate_affine(&points, &points).unwrap_err(),
        StackError::AlignmentFailed
    );
}

#[test]
fn estimate_affine_collinear_points_fail() {
    // Twelve distinct points on one line: no sample is in general position.
    let line: Vec<Point> = (0..12i64).map(|k| pt(16 * k, 32 * k)).collect();
    assert_eq!(
        estimate_affine(&line, &line).unwrap_err(),
        StackError::AlignmentFailed
    );
}

#[test]
fn estimate_affine_below_min_inliers_fails() {
    // Three perfectly matched, non-collinear pairs: a valid fit exists, but
    // the minimum consensus of ten inliers cannot be reached.
    let points = vec![pt(0, 0), pt(16, 0), pt(0, 16)];
    assert_eq!(
        estimate_affine(&points, &points).unwrap_err(),
        StackError::AlignmentFailed
    );
}

#[test]
fn estimate_affine_tolerates_outliers() {
    // Ten exact pairs plus two gross outliers: the consensus transform must
    // still be the translation, scoring at least the ten exact pairs.
    let mut points_b = grid();
    let mut points_a: Vec<Point> = points_b.iter().map(|p| pt(p.x + 32, p.y)).collect();
    points_a[10] = pt(5000, 5000);
    points_a[11] = pt(-4000, 2000);
    points_b.push(pt(400, 400));
    points_a.push(pt(-2000, 3000));
    let (t, count) = estimate_affine(&points_a, &points_b).unwrap();
    assert!(count >= 10);
    for i in 0..10 {
        let p = points_b[i];
        assert_eq!(apply(&t, p), (points_a[i].x, points_a[i].y));
    }
}
