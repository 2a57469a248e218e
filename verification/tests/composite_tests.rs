use stellacomp::composite::{average, lighten, stack_average, stack_lighten};
use stellacomp::{Frame, Pixel, StackError};

fn px(r: u8, g: u8, b: u8) -> Pixel {
    Pixel { r, g, b }
}

fn frame1(p: Pixel) -> Frame {
    Frame { width: 1, height: 1, data: vec![p] }
}

#[test]
fn lighten_picks_strictly_brighter_pixel() {
    let a = frame1(px(200, 200, 200));
    let b = frame1(px(10, 10, 10));
    let out = lighten(&a, &b).unwrap();
    assert_eq!(out.data[0], px(200, 200, 200));
    let out2 = lighten(&b, &a).unwrap();
    assert_eq!(out2.data[0], px(200, 200, 200));
}

#[test]
fn lighten_tie_returns_second_operand() {
    // Same pixel on both sides: the result is that pixel, taken from b.
    let a = frame1(px(10, 10, 10));
    let b = frame1(px(10, 10, 10));
    let out = lighten(&a, &b).unwrap();
    assert_eq!(out.data[0], px(10, 10, 10));

    // Distinguishable tie: 299*15 + 114*7 == 587*9, so the lumas coincide
    // while the channels differ; the pixel of b must win.
    let a = frame1(px(15, 0, 7));
    let b = frame1(px(0, 9, 0));
    assert_eq!(299 * 15 + 114 * 7, 587 * 9);
    let out = lighten(&a, &b).unwrap();
    assert_eq!(out.data[0], px(0, 9, 0));
    let out2 = lighten(&b, &a).unwrap();
    assert_eq!(out2.data[0], px(15, 0, 7));
}

#[test]
fn lighten_selects_per_pixel() {
    let a = Frame { width: 2, height: 1, data: vec![px(255, 0, 0), px(0, 0, 30)] };
    let b = Frame { width: 2, height: 1, data: vec![px(0, 0, 40), px(90, 90, 90)] };
    let out = lighten(&a, &b).unwrap();
    assert_eq!(out.data, vec![px(255, 0, 0), px(90, 90, 90)]);
}

#[test]
fn average_is_floor_of_mean() {
    let a = frame1(px(0, 0, 0));
    let b = frame1(px(255, 255, 255));
    let out = average(&a, &b).unwrap();
    assert_eq!(out.data[0], px(127, 127, 127));

    let a = frame1(px(1, 2, 3));
    let b = frame1(px(2, 3, 4));
    let out = average(&a, &b).unwrap();
    assert_eq!(out.data[0], px(1, 2, 3));
}

#[test]
fn composite_dimension_mismatch_fails() {
    let a = Frame { width: 2, height: 1, data: vec![px(0, 0, 0), px(0, 0, 0)] };
    let b = frame1(px(0, 0, 0));
    assert_eq!(lighten(&a, &b).unwrap_err(), StackError::DimensionMismatch);
    assert_eq!(average(&a, &b).unwrap_err(), StackError::DimensionMismatch);
    let c = Frame { width: 1, height: 2, data: vec![px(0, 0, 0), px(0, 0, 0)] };
    assert_eq!(lighten(&a, &c).unwrap_err(), StackError::DimensionMismatch);
}

#[test]
fn stack_average_truncates_at_each_fold() {
    // Left-to-right pairwise averaging truncates at every step: the result
    // is not the true three-way mean.
    let frames = vec![frame1(px(0, 0, 0)), frame1(px(3, 3, 3)), frame1(px(1, 1, 1))];
    let out = stack_average(&frames).unwrap();
    // avg(avg(0,3), 1) == avg(1, 1) == 1.
    assert_eq!(out.data[0], px(1, 1, 1));
    let frames2 = vec![frame1(px(3, 3, 3)), frame1(px(3, 3, 3)), frame1(px(0, 0, 0))];
    let out2 = stack_average(&frames2).unwrap();
    // avg(avg(3,3)=3, 0) == 1, while floor((3+3+0)/3) == 2.
    assert_eq!(out2.data[0], px(1, 1, 1));
}

#[test]
fn stack_lighten_folds_left_to_right() {
    let frames = vec![frame1(px(5, 5, 5)), frame1(px(200, 0, 0)), frame1(px(0, 90, 0))];
    let out = stack_lighten(&frames).unwrap();
    // luma(200,0,0)=59800 > luma(0,90,0)=52830 > luma(5,5,5)=5000.
    assert_eq!(out.data[0], px(200, 0, 0));
}

#[test]
fn stack_single_frame_is_identity() {
    let frames = vec![frame1(px(7, 8, 9))];
    let out = stack_lighten(&frames).unwrap();
    assert_eq!(out.data[0], px(7, 8, 9));
    let out2 = stack_average(&frames).unwrap();
    assert_eq!(out2.data[0], px(7, 8, 9));
}

#[test]
fn stack_dimension_mismatch_fails() {
    let frames = vec![
        frame1(px(0, 0, 0)),
        Frame { width: 2, height: 1, data: vec![px(0, 0, 0), px(0, 0, 0)] },
    ];
    assert_eq!(stack_lighten(&frames).unwrap_err(), StackError::DimensionMismatch);
    assert_eq!(stack_average(&frames).unwrap_err(), StackError::DimensionMismatch);
}
