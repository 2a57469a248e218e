use vstd::prelude::*;

verus! {

/// One 8-bit-per-channel RGB sample.
#[derive(Clone, Copy, Debug, PartialEq, Eq, Structural)]
pub struct Pixel {
    pub r: u8,
    pub g: u8,
    pub b: u8,
}

/// Largest width or height a frame may have. Keeps every pixel count below
/// 2^28, so that the histogram and variance arithmetic of the binarizer and
/// the interpolation arithmetic of the warper stay within machine integers.
pub const MAX_DIM: u32 = 16384;

/// Luma of a pixel, scaled by 1000 so it stays an integer:
/// 1000 * (0.299 R + 0.587 G + 0.114 B). Ranges over 0..=255000.
pub open spec fn luma1000(p: Pixel) -> int {
    299 * p.r + 587 * p.g + 114 * p.b
}

/// The luma histogram bin of a pixel: its luma truncated to an integer,
/// one of the 256 bins 0..=255.
pub open spec fn luma_bin(p: Pixel) -> int {
    luma1000(p) / 1000
}

/// Mathematical model of a frame: its dimensions and its pixel grid in
/// row-major order.
#[verifier::ext_equal]
pub ghost struct FrameView {
    pub width: nat,
    pub height: nat,
    pub pixels: Seq<Pixel>,
}

impl FrameView {
    /// A frame model is well formed when the grid holds exactly one pixel
    /// per coordinate and both dimensions respect the machine bound.
    pub open spec fn wf(self) -> bool {
        &&& self.pixels.len() == self.width * self.height
        &&& self.width <= MAX_DIM
        &&& self.height <= MAX_DIM
    }

    /// The pixel at column `x` of row `y`.
    pub open spec fn pix(self, x: int, y: int) -> Pixel {
        self.pixels[y * self.width + x]
    }
}

/// An uncompressed RGB raster: the in-memory representation every core stage
/// consumes and produces. Pixels are stored row by row, `width * height` of
/// them; no stage mutates a frame in place.
#[derive(Debug)]
pub struct Frame {
    pub width: u32,
    pub height: u32,
    pub data: Vec<Pixel>,
}

impl View for Frame {
    type V = FrameView;

    open spec fn view(&self) -> FrameView {
        FrameView { width: self.width as nat, height: self.height as nat, pixels: self.data@ }
    }
}

impl Frame {
    /// Well-formedness of the executable frame, in terms of its model.
    pub open spec fn wf(&self) -> bool {
        self@.wf()
    }

    /// Builds a frame of the given dimensions with every pixel equal to `fill`.
    pub fn filled(width: u32, height: u32, fill: Pixel) -> (r: Frame)
        requires
            width <= MAX_DIM,
            height <= MAX_DIM,
        ensures
            r.wf(),
            r.width == width,
            r.height == height,
            forall|i: int| 0 <= i < r@.pixels.len() ==> r@.pixels[i] == fill,
    {
        proof {
            lemma_dims_bound(width as int, height as int);
        }
        let n: usize = (width as usize) * (height as usize);
        let mut data: Vec<Pixel> = Vec::new();
        let mut i: usize = 0;
        while i < n
            invariant
                i <= n,
                data@.len() == i,
                forall|k: int| 0 <= k < i ==> data@[k] == fill,
            decreases n - i,
        {
            data.push(fill);
            i = i + 1;
        }
        Frame { width, height, data }
    }

    /// Reads the pixel at column `x` of row `y`.
    pub fn get_pixel(&self, x: u32, y: u32) -> (r: Pixel)
        requires
            self.wf(),
            x < self.width,
            y < self.height,
        ensures
            r == self@.pix(x as int, y as int),
    {
        proof {
            lemma_grid_index(self.width as int, self.height as int, x as int, y as int);
            lemma_dims_bound(self.width as int, self.height as int);
        }
        let idx: usize = (y as usize) * (self.width as usize) + (x as usize);
        self.data[idx]
    }
}

/// A row-major index lies inside the grid: `y * w + x < w * h` whenever
/// `x < w` and `y < h`.
pub proof fn lemma_grid_index(w: int, h: int, x: int, y: int)
    by (nonlinear_arith)
    requires
        0 <= x < w,
        0 <= y < h,
    ensures
        0 <= y * w + x < w * h,
        y * w + x < h * w,
{
}

/// Dimensions within `MAX_DIM` keep the pixel count below 2^28.
pub proof fn lemma_dims_bound(w: int, h: int)
    by (nonlinear_arith)
    requires
        0 <= w <= MAX_DIM,
        0 <= h <= MAX_DIM,
    ensures
        0 <= w * h <= 0x10000000,
{
}

/// Executable luma, scaled by 1000; agrees with the specification `luma1000`.
pub fn luma1000_of(p: Pixel) -> (r: u32)
    ensures
        r == luma1000(p),
        r <= 255000,
{
    299 * (p.r as u32) + 587 * (p.g as u32) + 114 * (p.b as u32)
}

} // verus!
