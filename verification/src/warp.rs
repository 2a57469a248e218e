use vstd::prelude::*;

use crate::affine::AffineTransform;
use crate::frame::Frame;
use crate::frame::FrameView;
use crate::frame::Pixel;
use crate::frame::MAX_DIM;

verus! {

/// The determinant of the linear part of a transform; the transform can be
/// inverted exactly when it is non-zero.
pub open spec fn det2(t: AffineTransform) -> int {
    t.m00 * t.m11 - t.m01 * t.m10
}

/// Numerator of the inverse-mapped source x coordinate (in sub-pixel units,
/// over denominator `det2 * den / den` arithmetic): solves the linear system
/// of the forward transform for the destination pixel (dx, dy).
pub open spec fn src_num_x(t: AffineTransform, dx: int, dy: int) -> int {
    t.m11 * (16 * dx * t.den - t.m02) - t.m01 * (16 * dy * t.den - t.m12)
}

/// Numerator of the inverse-mapped source y coordinate.
pub open spec fn src_num_y(t: AffineTransform, dx: int, dy: int) -> int {
    t.m00 * (16 * dy * t.den - t.m12) - t.m10 * (16 * dx * t.den - t.m02)
}

/// Bilinear blend of four channel values with 8-bit fractional weights,
/// truncated to the 8-bit range.
pub open spec fn bilerp(fx: int, fy: int, v00: u8, v10: u8, v01: u8, v11: u8) -> u8 {
    ((((256 - fx) * (256 - fy)) * v00 + (fx * (256 - fy)) * v10 + ((256 - fx) * fy) * v01 + (fx
        * fy) * v11) / 65536) as u8
}

/// The pixel a warp writes at destination (dx, dy): the inverse transform of
/// the destination coordinate is sampled in the source with bilinear
/// interpolation at 1/256-pixel precision, and coordinates outside the
/// source grid yield pure black rather than clamping to an edge.
pub open spec fn spec_sample(f: FrameView, t: AffineTransform, dx: int, dy: int) -> Pixel {
    let d0 = det2(t);
    let sd: int = if d0 < 0 {
        -1
    } else {
        1
    };
    let d = sd * d0;
    let nx = sd * src_num_x(t, dx, dy);
    let ny = sd * src_num_y(t, dx, dy);
    if nx < 0 || ny < 0 || f.width == 0 || f.height == 0 {
        Pixel { r: 0, g: 0, b: 0 }
    } else {
        let sx = (16 * nx) / d;
        let sy = (16 * ny) / d;
        if sx > 256 * (f.width - 1) || sy > 256 * (f.height - 1) {
            Pixel { r: 0, g: 0, b: 0 }
        } else {
            let x0 = sx / 256;
            let fx = sx % 256;
            let y0 = sy / 256;
            let fy = sy % 256;
            let x1 = if fx == 0 {
                x0
            } else {
                x0 + 1
            };
            let y1 = if fy == 0 {
                y0
            } else {
                y0 + 1
            };
            let p00 = f.pix(x0, y0);
            let p10 = f.pix(x1, y0);
            let p01 = f.pix(x0, y1);
            let p11 = f.pix(x1, y1);
            Pixel {
                r: bilerp(fx, fy, p00.r, p10.r, p01.r, p11.r),
                g: bilerp(fx, fy, p00.g, p10.g, p01.g, p11.g),
                b: bilerp(fx, fy, p00.b, p10.b, p01.b, p11.b),
            }
        }
    }
}

/// The warped frame: `out_width` by `out_height` pixels, each sampled
/// through the inverted transform. The input frame is never mutated.
pub open spec fn spec_warp(f: FrameView, t: AffineTransform, out_width: nat, out_height: nat) -> FrameView {
    FrameView {
        width: out_width,
        height: out_height,
        pixels: Seq::new(
            out_width * out_height,
            |idx: int| spec_sample(f, t, idx % (out_width as int), idx / (out_width as int)),
        ),
    }
}

/// Decides whether the linear part of a transform is invertible, so a warp
/// through it is defined.
pub fn invertible(t: &AffineTransform) -> (r: bool)
    requires
        t.wf(),
    ensures
        r == (det2(*t) != 0),
{
    let p1 = crate::affine::mul_bounded(t.m00, t.m11, Ghost(0x8000000000), Ghost(0x8000000000));
    let p2 = crate::affine::mul_bounded(t.m01, t.m10, Ghost(0x8000000000), Ghost(0x8000000000));
    p1 - p2 != 0
}

/// Blends one channel bilinearly; the weights are 1/65536ths.
fn bilerp_exec(fx: u32, fy: u32, v00: u8, v10: u8, v01: u8, v11: u8) -> (r: u8)
    requires
        fx < 256,
        fy < 256,
    ensures
        r == bilerp(fx as int, fy as int, v00, v10, v01, v11),
{
    proof {
        assert((256 - fx) * (256 - fy) <= 65536 && fx * (256 - fy) <= 65536 && (256 - fx) * fy
            <= 65536 && fx * fy <= 65536) by (nonlinear_arith)
            requires
                0 <= fx < 256,
                0 <= fy < 256,
        ;
    }
    let w00: u32 = (256 - fx) * (256 - fy);
    let w10: u32 = fx * (256 - fy);
    let w01: u32 = (256 - fx) * fy;
    let w11: u32 = fx * fy;
    proof {
        assert(w00 * (v00 as int) <= w00 * 255 && w10 * (v10 as int) <= w10 * 255 && w01 * (v01
            as int) <= w01 * 255 && w11 * (v11 as int) <= w11 * 255) by (nonlinear_arith)
            requires
                w00 >= 0,
                w10 >= 0,
                w01 >= 0,
                w11 >= 0,
                0 <= v00 <= 255,
                0 <= v10 <= 255,
                0 <= v01 <= 255,
                0 <= v11 <= 255,
        ;
        assert(w00 * 255 <= 65536 * 255 && w10 * 255 <= 65536 * 255 && w01 * 255 <= 65536 * 255
            && w11 * 255 <= 65536 * 255);
    }
    let sum: u32 = w00 * (v00 as u32) + w10 * (v10 as u32) + w01 * (v01 as u32) + w11 * (v11
        as u32);
    (sum / 65536) as u8
}

/// Samples the source frame at the inverse image of destination pixel
/// (dx, dy), bilinearly; out-of-bounds source coordinates yield black.
fn sample_pixel(f: &Frame, t: &AffineTransform, dx: u32, dy: u32) -> (r: Pixel)
    requires
        f.wf(),
        t.wf(),
        det2(*t) != 0,
        dx < MAX_DIM,
        dy < MAX_DIM,
    ensures
        r == spec_sample(f@, *t, dx as int, dy as int),
{
    let dxu: i128 = 16 * (dx as i128);
    let dyu: i128 = 16 * (dy as i128);
    let rx_a = crate::affine::mul_bounded(dxu, t.den, Ghost(0x40000), Ghost(0x8000000000));
    let ry_a = crate::affine::mul_bounded(dyu, t.den, Ghost(0x40000), Ghost(0x8000000000));
    let rx = rx_a - t.m02;
    let ry = ry_a - t.m12;
    let nx0 = crate::affine::mul_bounded(t.m11, rx, Ghost(0x8000000000), Ghost(0x400000000000000))
        - crate::affine::mul_bounded(t.m01, ry, Ghost(0x8000000000), Ghost(0x400000000000000));
    let ny0 = crate::affine::mul_bounded(t.m00, ry, Ghost(0x8000000000), Ghost(0x400000000000000))
        - crate::affine::mul_bounded(t.m10, rx, Ghost(0x8000000000), Ghost(0x400000000000000));
    let d0 = crate::affine::mul_bounded(t.m00, t.m11, Ghost(0x8000000000), Ghost(0x8000000000))
        - crate::affine::mul_bounded(t.m01, t.m10, Ghost(0x8000000000), Ghost(0x8000000000));
    proof {
        assert(nx0 == src_num_x(*t, dx as int, dy as int));
        assert(ny0 == src_num_y(*t, dx as int, dy as int));
        assert(d0 == det2(*t));
    }
    let (nx, ny, d) = if d0 < 0 {
        (-nx0, -ny0, -d0)
    } else {
        (nx0, ny0, d0)
    };
    proof {
        if d0 < 0 {
            assert(nx == -1 * src_num_x(*t, dx as int, dy as int));
            assert(ny == -1 * src_num_y(*t, dx as int, dy as int));
            assert(d == -1 * det2(*t));
        } else {
            assert(nx == 1 * src_num_x(*t, dx as int, dy as int));
            assert(ny == 1 * src_num_y(*t, dx as int, dy as int));
            assert(d == 1 * det2(*t));
        }
    }
    if nx < 0 || ny < 0 || f.width == 0 || f.height == 0 {
        return Pixel { r: 0, g: 0, b: 0 };
    }
    let sxw: u128 = ((16 * nx) as u128) / (d as u128);
    let syw: u128 = ((16 * ny) as u128) / (d as u128);
    proof {
        assert(sxw == (16 * (nx as int)) / (d as int));
        assert(syw == (16 * (ny as int)) / (d as int));
    }
    if sxw > 256 * ((f.width - 1) as u128) || syw > 256 * ((f.height - 1) as u128) {
        return Pixel { r: 0, g: 0, b: 0 };
    }
    let x0: u32 = (sxw / 256) as u32;
    let fx: u32 = (sxw % 256) as u32;
    let y0: u32 = (syw / 256) as u32;
    let fy: u32 = (syw % 256) as u32;
    proof {
        vstd::arithmetic::div_mod::lemma_fundamental_div_mod(sxw as int, 256);
        vstd::arithmetic::div_mod::lemma_fundamental_div_mod(syw as int, 256);
        vstd::arithmetic::div_mod::lemma_div_is_ordered(sxw as int, 256 * (f.width - 1), 256);
        vstd::arithmetic::div_mod::lemma_div_is_ordered(syw as int, 256 * (f.height - 1), 256);
        vstd::arithmetic::div_mod::lemma_div_multiples_vanish(f.width - 1, 256);
        vstd::arithmetic::div_mod::lemma_div_multiples_vanish(f.height - 1, 256);
        assert(x0 <= f.width - 1);
        assert(y0 <= f.height - 1);
    }
    let x1: u32 = if fx == 0 {
        x0
    } else {
        x0 + 1
    };
    let y1: u32 = if fy == 0 {
        y0
    } else {
        y0 + 1
    };
    proof {
        if fx != 0 {
            assert(x0 < f.width - 1);
        }
        if fy != 0 {
            assert(y0 < f.height - 1);
        }
    }
    let p00 = f.get_pixel(x0, y0);
    let p10 = f.get_pixel(x1, y0);
    let p01 = f.get_pixel(x0, y1);
    let p11 = f.get_pixel(x1, y1);
    Pixel {
        r: bilerp_exec(fx, fy, p00.r, p10.r, p01.r, p11.r),
        g: bilerp_exec(fx, fy, p00.g, p10.g, p01.g, p11.g),
        b: bilerp_exec(fx, fy, p00.b, p10.b, p01.b, p11.b),
    }
}

/// Resamples a frame through an affine transform into a destination grid of
/// the given size: every destination pixel is the bilinear sample of the
/// inverse-transformed source coordinate, and source coordinates outside the
/// frame fill with black. The input frame is left untouched.
pub fn warp(frame: &Frame, t: &AffineTransform, out_width: u32, out_height: u32) -> (r: Frame)
    requires
        frame.wf(),
        t.wf(),
        det2(*t) != 0,
        out_width <= MAX_DIM,
        out_height <= MAX_DIM,
    ensures
        r.wf(),
        r@ == spec_warp(frame@, *t, out_width as nat, out_height as nat),
{
    proof {
        crate::frame::lemma_dims_bound(out_width as int, out_height as int);
    }
    let n: usize = (out_width as usize) * (out_height as usize);
    let mut data: Vec<Pixel> = Vec::new();
    let mut idx: usize = 0;
    while idx < n
        invariant
            idx <= n,
            n == out_width * out_height,
            out_width <= MAX_DIM,
            out_height <= MAX_DIM,
            frame.wf(),
            t.wf(),
            det2(*t) != 0,
            data@.len() == idx,
            forall|m: int|
                0 <= m < idx ==> data@[m] == spec_sample(
                    frame@,
                    *t,
                    m % (out_width as int),
                    m / (out_width as int),
                ),
        decreases n - idx,
    {
        proof {
            assert(out_width > 0) by (nonlinear_arith)
                requires
                    idx < n,
                    n == out_width * out_height,
                    idx >= 0,
            ;
            assert((idx as int) / (out_width as int) < out_height) by (nonlinear_arith)
                requires
                    0 <= idx < n,
                    n == out_width * out_height,
                    out_width > 0,
            ;
        }
        let dx: usize = idx % (out_width as usize);
        let dy: usize = idx / (out_width as usize);
        let p = sample_pixel(frame, t, dx as u32, dy as u32);
        data.push(p);
        idx = idx + 1;
    }
    let out = Frame { width: out_width, height: out_height, data };
    proof {
        assert(out@ =~= spec_warp(frame@, *t, out_width as nat, out_height as nat));
    }
    out
}

/// Builds the exact identity transform.
pub fn identity_transform() -> (r: AffineTransform)
    ensures
        r.is_identity(),
        r.wf(),
        det2(r) != 0,
{
    AffineTransform { m00: 1, m01: 0, m02: 0, m10: 0, m11: 1, m12: 0, den: 1 }
}

/// Warping a frame through the identity transform into its own grid
/// reproduces the frame exactly: the inverse maps every destination pixel to
/// itself with zero fractional part, and the bilinear blend collapses to
/// that pixel.
pub proof fn lemma_warp_identity(f: FrameView, t: AffineTransform)
    requires
        f.wf(),
        t.is_identity(),
        t.den != 0,
    ensures
        spec_warp(f, t, f.width, f.height) == f,
{
    let w = f.width as int;
    let h = f.height as int;
    assert(det2(t) == t.den * t.den);
    assert(t.den * t.den > 0) by (nonlinear_arith)
        requires
            t.den != 0,
    ;
    let d = det2(t);
    assert forall|idx: int| 0 <= idx < w * h implies spec_sample(f, t, idx % w, idx / w)
        == f.pixels[idx] by {
        assert(w > 0 && h > 0) by (nonlinear_arith)
            requires
                0 <= idx < w * h,
                w >= 0,
                h >= 0,
        ;
        let dx = idx % w;
        let dy = idx / w;
        vstd::arithmetic::div_mod::lemma_fundamental_div_mod(idx, w);
        assert(0 <= dx < w);
        assert(0 <= dy < h) by (nonlinear_arith)
            requires
                0 <= idx < w * h,
                w > 0,
                idx == w * dy + dx,
                0 <= dx < w,
        ;
        // The inverse numerators collapse to dx, dy times the denominator.
        assert(src_num_x(t, dx, dy) == 16 * dx * d && src_num_y(t, dx, dy) == 16 * dy * d)
            by (nonlinear_arith)
            requires
                t.m00 == t.den,
                t.m11 == t.den,
                t.m01 == 0,
                t.m02 == 0,
                t.m10 == 0,
                t.m12 == 0,
                d == t.m00 * t.m11 - t.m01 * t.m10,
                src_num_x(t, dx, dy) == t.m11 * (16 * dx * t.den - t.m02) - t.m01 * (16 * dy
                    * t.den - t.m12),
                src_num_y(t, dx, dy) == t.m00 * (16 * dy * t.den - t.m12) - t.m10 * (16 * dx
                    * t.den - t.m02),
        ;
        let nx = src_num_x(t, dx, dy);
        let ny = src_num_y(t, dx, dy);
        assert(nx >= 0 && ny >= 0) by (nonlinear_arith)
            requires
                nx == 16 * dx * d,
                ny == 16 * dy * d,
                dx >= 0,
                dy >= 0,
                d > 0,
        ;
        assert(16 * nx == d * (256 * dx) && 16 * ny == d * (256 * dy)) by (nonlinear_arith)
            requires
                nx == 16 * dx * d,
                ny == 16 * dy * d,
        ;
        vstd::arithmetic::div_mod::lemma_div_multiples_vanish(256 * dx, d);
        vstd::arithmetic::div_mod::lemma_div_multiples_vanish(256 * dy, d);
        let sx = (16 * nx) / d;
        let sy = (16 * ny) / d;
        assert(sx == 256 * dx && sy == 256 * dy);
        assert(sx <= 256 * (w - 1) && sy <= 256 * (h - 1));
        vstd::arithmetic::div_mod::lemma_div_multiples_vanish(dx, 256);
        vstd::arithmetic::div_mod::lemma_div_multiples_vanish(dy, 256);
        vstd::arithmetic::div_mod::lemma_mod_multiples_basic(dx, 256);
        vstd::arithmetic::div_mod::lemma_mod_multiples_basic(dy, 256);
        assert(sx / 256 == dx && sx % 256 == 0 && sy / 256 == dy && sy % 256 == 0)
            by (nonlinear_arith)
            requires
                sx == 256 * dx,
                sy == 256 * dy,
                (dx * 256) / 256 == dx,
                (dy * 256) / 256 == dy,
                (dx * 256) % 256 == 0,
                (dy * 256) % 256 == 0,
        ;
        let p = f.pix(dx, dy);
        vstd::arithmetic::div_mod::lemma_div_multiples_vanish(p.r as int, 65536);
        vstd::arithmetic::div_mod::lemma_div_multiples_vanish(p.g as int, 65536);
        vstd::arithmetic::div_mod::lemma_div_multiples_vanish(p.b as int, 65536);
        assert(bilerp(0, 0, p.r, p.r, p.r, p.r) == p.r);
        assert(bilerp(0, 0, p.g, p.g, p.g, p.g) == p.g);
        assert(bilerp(0, 0, p.b, p.b, p.b, p.b) == p.b);
        assert(spec_sample(f, t, dx, dy) == p);
        assert(f.pixels[idx] == p) by {
            assert(idx == dy * w + dx) by (nonlinear_arith)
                requires
                    idx == w * dy + dx,
            ;
        }
    }
    assert(spec_warp(f, t, f.width, f.height) =~= f);
}

} // verus!