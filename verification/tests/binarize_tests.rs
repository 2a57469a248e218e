use stellacomp::binarize::{binarize, otsu_threshold};
use stellacomp::{Frame, Pixel};

fn px(v: u8) -> Pixel {
    Pixel { r: v, g: v, b: v }
}

fn white() -> Pixel {
    Pixel { r: 255, g: 255, b: 255 }
}

fn black() -> Pixel {
    Pixel { r: 0, g: 0, b: 0 }
}

#[test]
fn otsu_two_level_histogram_picks_lower_level() {
    // Lumas 50 and 200 only: every threshold in 50..200 maximizes the
    // between-class variance, and the smallest maximizer is 50.
    let data = vec![px(50), px(50), px(200), px(200), px(200)];
    assert_eq!(otsu_threshold(&data), 50);
}

#[test]
fn otsu_on_black_and_white_is_zero() {
    let data = vec![px(0), px(255), px(255)];
    assert_eq!(otsu_threshold(&data), 0);
}

#[test]
fn otsu_on_constant_input_is_zero() {
    // With a single occupied bin one class is always empty, every variance
    // is zero, and the smallest threshold wins.
    let data = vec![px(100), px(100)];
    assert_eq!(otsu_threshold(&data), 0);
}

#[test]
fn binarize_splits_at_threshold() {
    let f = Frame {
        width: 2,
        height: 2,
        data: vec![px(50), px(200), px(50), px(200)],
    };
    let out = binarize(&f);
    assert_eq!(out.width, 2);
    assert_eq!(out.height, 2);
    // Threshold 50: luma strictly above 50 turns white, the rest black.
    assert_eq!(out.data, vec![black(), white(), black(), white()]);
}

#[test]
fn binarize_uses_strict_comparison() {
    // Whatever threshold the scan picks, the split must compare the exact
    // luma strictly against it.
    let f = Frame { width: 3, height: 1, data: vec![px(50), px(50), px(200)] };
    let t = otsu_threshold(&f.data);
    let out = binarize(&f);
    for (i, p) in f.data.iter().enumerate() {
        let luma1000 = 299 * (p.r as u32) + 587 * (p.g as u32) + 114 * (p.b as u32);
        if luma1000 > 1000 * (t as u32) {
            assert_eq!(out.data[i], white());
        } else {
            assert_eq!(out.data[i], black());
        }
    }
}

#[test]
fn binarize_is_idempotent() {
    let f = Frame {
        width: 3,
        height: 2,
        data: vec![px(13), px(77), px(200), px(130), px(0), px(255)],
    };
    let once = binarize(&f);
    let twice = binarize(&once);
    assert_eq!(once.width, twice.width);
    assert_eq!(once.height, twice.height);
    assert_eq!(once.data, twice.data);
}

#[test]
fn binarize_is_idempotent_on_constant_frame() {
    let f = Frame { width: 2, height: 1, data: vec![px(90), px(90)] };
    let once = binarize(&f);
    // Constant frames threshold at 0, so everything above black turns white.
    assert_eq!(once.data, vec![white(), white()]);
    let twice = binarize(&once);
    assert_eq!(once.data, twice.data);
}

#[test]
fn binarize_empty_frame() {
    let f = Frame { width: 0, height: 0, data: vec![] };
    let out = binarize(&f);
    assert_eq!(out.width, 0);
    assert_eq!(out.height, 0);
    assert!(out.data.is_empty());
}

#[test]
fn binarize_mixed_channels_uses_luma() {
    // Gray 29 has luma exactly 29; pure green has luma 149.685. The Otsu
    // threshold of this two-level histogram is bin 29, and the strict
    // comparison keeps the gray pixel black while green turns white.
    let f = Frame {
        width: 2,
        height: 1,
        data: vec![px(29), Pixel { r: 0, g: 255, b: 0 }],
    };
    assert_eq!(otsu_threshold(&f.data), 29);
    let out = binarize(&f);
    assert_eq!(out.data, vec![black(), white()]);
}

#[test]
fn binarize_paints_by_exact_luma_not_by_bin() {
    // Pure blue has luma 29.07: it falls in bin 29, yet its exact luma lies
    // strictly above the threshold 29, so it turns white.
    let f = Frame {
        width: 2,
        height: 1,
        data: vec![Pixel { r: 0, g: 0, b: 255 }, Pixel { r: 0, g: 255, b: 0 }],
    };
    assert_eq!(otsu_threshold(&f.data), 29);
    let out = binarize(&f);
    assert_eq!(out.data, vec![white(), white()]);
}
