use stellacomp::affine::Point;
use stellacomp::register::{register, register_and_warp};
use stellacomp::warp::{invertible, warp};
use stellacomp::{Frame, Pixel, StackError};

fn pt(x: i64, y: i64) -> Point {
    Point { x, y }
}

/// Twelve keypoints on a 4x3 pixel grid with pairwise distinct descriptors.
fn features() -> (Vec<Point>, Vec<Vec<u8>>) {
    let mut kps = Vec::new();
    let mut descs = Vec::new();
    for gy in 0..3i64 {
        for gx in 0..4i64 {
            kps.push(pt(16 * gx, 16 * gy));
            // One set bit per descriptor, in a distinct position.
            let mut d = vec![0u8; 4];
            let idx = (gy * 4 + gx) as usize;
            d[idx / 8] = 1u8 << (idx % 8);
            descs.push(d);
        }
    }
    (kps, descs)
}

#[test]
fn register_self_yields_full_consensus() {
    let (kps, descs) = features();
    let (t, count) = register(&kps, &descs, &kps, &descs, 4).unwrap();
    assert_eq!(count, kps.len());
    // The transform maps every keypoint exactly onto itself.
    for p in &kps {
        let nx = t.m00 * (p.x as i128) + t.m01 * (p.y as i128) + t.m02;
        let ny = t.m10 * (p.x as i128) + t.m11 * (p.y as i128) + t.m12;
        assert_eq!(nx, (p.x as i128) * t.den);
        assert_eq!(ny, (p.y as i128) * t.den);
    }
}

#[test]
fn register_translated_features_recovers_translation() {
    let (kps_b, descs) = features();
    let kps_a: Vec<Point> = kps_b.iter().map(|p| pt(p.x + 48, p.y - 32)).collect();
    let (t, count) = register(&kps_a, &descs, &kps_b, &descs, 4).unwrap();
    assert_eq!(count, kps_b.len());
    for (pa, pb) in kps_a.iter().zip(kps_b.iter()) {
        let nx = t.m00 * (pb.x as i128) + t.m01 * (pb.y as i128) + t.m02;
        assert_eq!(nx, (pa.x as i128) * t.den);
        let ny = t.m10 * (pb.x as i128) + t.m11 * (pb.y as i128) + t.m12;
        assert_eq!(ny, (pa.y as i128) * t.den);
    }
}

#[test]
fn register_without_matches_reports_insufficient_correspondences() {
    // Descriptors three bytes apart in every bit: each pair is 24 bits away,
    // past the acceptance threshold, so no good match remains.
    let kps = vec![pt(0, 0), pt(16, 0), pt(0, 16), pt(16, 16)];
    let descs_a = vec![vec![0x00u8, 0x00, 0x00]; 4];
    let descs_b = vec![vec![0xFFu8, 0xFF, 0xFF]; 4];
    assert_eq!(
        register(&kps, &descs_a, &kps, &descs_b, 3).unwrap_err(),
        StackError::InsufficientCorrespondences
    );
}

#[test]
fn register_with_few_matches_fails_alignment() {
    // Three good matches pass the correspondence gate but cannot reach the
    // ten-inlier consensus.
    let kps = vec![pt(0, 0), pt(16, 0), pt(0, 16)];
    let mut descs = Vec::new();
    for i in 0..3u8 {
        descs.push(vec![1u8 << i]);
    }
    assert_eq!(
        register(&kps, &descs, &kps, &descs, 1).unwrap_err(),
        StackError::AlignmentFailed
    );
}

#[test]
fn register_then_warp_self_is_lossless() {
    // End-to-end over the core stages: registering a frame against itself
    // from identical features yields a transform whose warp reproduces the
    // frame pixel for pixel.
    let (kps, descs) = features();
    let mut data = Vec::new();
    for i in 0..12u8 {
        data.push(Pixel { r: i, g: 2 * i, b: 255 - i });
    }
    let frame = Frame { width: 4, height: 3, data };
    let (t, count) = register(&kps, &descs, &kps, &descs, 4).unwrap();
    assert_eq!(count, 12);
    assert!(invertible(&t));
    let out = warp(&frame, &t, 4, 3);
    assert_eq!(out.width, frame.width);
    assert_eq!(out.height, frame.height);
    assert_eq!(out.data, frame.data);
}

#[test]
fn register_and_warp_self_is_identity_pipeline() {
    // The pipeline composition: the contract of register_and_warp owes a
    // pixel-equal output on self-registration, and the run confirms it.
    let (kps, descs) = features();
    let mut data = Vec::new();
    for i in 0..12u8 {
        data.push(Pixel { r: 20 + i, g: 200 - i, b: 3 * i });
    }
    let frame = Frame { width: 4, height: 3, data };
    let (t, count, out) = register_and_warp(&frame, &kps, &descs, &kps, &descs, 4).unwrap();
    assert_eq!(count, 12);
    assert_eq!(t.m01, 0);
    assert_eq!(t.m00, t.den);
    assert_eq!(out.data, frame.data);
}

#[test]
fn register_and_warp_propagates_match_shortage() {
    let kps = vec![pt(0, 0), pt(16, 0), pt(0, 16), pt(16, 16)];
    let descs_a = vec![vec![0x00u8, 0x00, 0x00]; 4];
    let descs_b = vec![vec![0xFFu8, 0xFF, 0xFF]; 4];
    let frame = Frame { width: 1, height: 1, data: vec![Pixel { r: 0, g: 0, b: 0 }] };
    assert_eq!(
        register_and_warp(&frame, &kps, &descs_a, &kps, &descs_b, 3).unwrap_err(),
        StackError::InsufficientCorrespondences
    );
}
