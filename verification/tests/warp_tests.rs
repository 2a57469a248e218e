use stellacomp::affine::AffineTransform;
use stellacomp::warp::{identity_transform, invertible, warp};
use stellacomp::{Frame, Pixel};

fn px(r: u8, g: u8, b: u8) -> Pixel {
    Pixel { r, g, b }
}

fn black() -> Pixel {
    Pixel { r: 0, g: 0, b: 0 }
}

#[test]
fn warp_identity_reproduces_frame() {
    let f = Frame {
        width: 2,
        height: 2,
        data: vec![px(1, 2, 3), px(4, 5, 6), px(7, 8, 9), px(10, 11, 12)],
    };
    let t = identity_transform();
    assert!(invertible(&t));
    let out = warp(&f, &t, 2, 2);
    assert_eq!(out.width, 2);
    assert_eq!(out.height, 2);
    assert_eq!(out.data, f.data);
    // The input frame is unchanged.
    assert_eq!(f.data[0], px(1, 2, 3));
}

#[test]
fn warp_translation_shifts_and_fills_black() {
    // Forward transform: x' = x + 1 pixel (16 sub-pixel units). The warper
    // inverts it, so destination column 1 reads source column 0, and
    // destination column 0 falls outside the source and turns black.
    let f = Frame {
        width: 2,
        height: 1,
        data: vec![px(10, 20, 30), px(40, 50, 60)],
    };
    let t = AffineTransform { m00: 1, m01: 0, m02: 16, m10: 0, m11: 1, m12: 0, den: 1 };
    let out = warp(&f, &t, 2, 1);
    assert_eq!(out.data, vec![black(), px(10, 20, 30)]);
}

#[test]
fn warp_output_size_is_fixed_by_caller() {
    let f = Frame { width: 1, height: 1, data: vec![px(200, 100, 50)] };
    let t = identity_transform();
    let out = warp(&f, &t, 3, 2);
    assert_eq!(out.width, 3);
    assert_eq!(out.height, 2);
    assert_eq!(out.data.len(), 6);
    assert_eq!(out.data[0], px(200, 100, 50));
    // Everything outside the 1x1 source is black, not edge-clamped.
    for i in 1..6 {
        assert_eq!(out.data[i], black());
    }
}

#[test]
fn warp_bilinear_blends_at_half_pixel() {
    // Forward transform: x' = x - 0.5 pixels, so the inverse samples halfway
    // between two source pixels; the blend is the exact mean.
    let f = Frame {
        width: 2,
        height: 1,
        data: vec![px(10, 0, 100), px(30, 0, 200)],
    };
    let t = AffineTransform { m00: 1, m01: 0, m02: -8, m10: 0, m11: 1, m12: 0, den: 1 };
    let out = warp(&f, &t, 2, 1);
    assert_eq!(out.data[0], px(20, 0, 150));
    // Destination column 1 would sample at x = 1.5, beyond the last pixel:
    // black.
    assert_eq!(out.data[1], black());
}

#[test]
fn warp_far_translation_is_all_black() {
    let f = Frame::filled(2, 2, px(9, 9, 9));
    let t = AffineTransform { m00: 1, m01: 0, m02: 1600, m10: 0, m11: 1, m12: 1600, den: 1 };
    let out = warp(&f, &t, 2, 2);
    assert_eq!(out.data, vec![black(); 4]);
}

#[test]
fn warp_scaled_denominator_identity() {
    // The same identity map written over a larger common denominator, as the
    // estimator produces it, warps identically.
    let f = Frame { width: 2, height: 1, data: vec![px(3, 1, 4), px(1, 5, 9)] };
    let t = AffineTransform { m00: 256, m01: 0, m02: 0, m10: 0, m11: 256, m12: 0, den: 256 };
    let out = warp(&f, &t, 2, 1);
    assert_eq!(out.data, f.data);
}
