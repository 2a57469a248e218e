use vstd::prelude::*;

use crate::StackError;
use crate::frame::Frame;
use crate::frame::FrameView;
use crate::frame::Pixel;
use crate::frame::luma1000;

verus! {

/// The compare-lighten composite of two equal-sized frames: at every pixel,
/// the input whose luma is strictly greater wins; on a luma tie the pixel of
/// `b` is taken.
pub open spec fn spec_lighten(a: FrameView, b: FrameView) -> FrameView {
    FrameView {
        width: a.width,
        height: a.height,
        pixels: Seq::new(
            a.pixels.len(),
            |i: int|
                if luma1000(a.pixels[i]) > luma1000(b.pixels[i]) {
                    a.pixels[i]
                } else {
                    b.pixels[i]
                },
        ),
    }
}

/// The averaged pixel of two inputs: each channel is the truncated mean
/// `(a + b) / 2` of the corresponding channels.
pub open spec fn avg_pixel(a: Pixel, b: Pixel) -> Pixel {
    Pixel {
        r: ((a.r + b.r) / 2) as u8,
        g: ((a.g + b.g) / 2) as u8,
        b: ((a.b + b.b) / 2) as u8,
    }
}

/// The average composite of two equal-sized frames: every channel of every
/// pixel is the truncated mean of the two inputs.
pub open spec fn spec_average(a: FrameView, b: FrameView) -> FrameView {
    FrameView {
        width: a.width,
        height: a.height,
        pixels: Seq::new(a.pixels.len(), |i: int| avg_pixel(a.pixels[i], b.pixels[i])),
    }
}

/// Two frames can be composited only when their dimensions agree exactly.
pub open spec fn same_dims(a: FrameView, b: FrameView) -> bool {
    a.width == b.width && a.height == b.height
}

/// Composites two frames by per-pixel brightness selection ("compare
/// lighten"): the output pixel is copied whole from whichever input has the
/// greater luma, and from `b` when the lumas tie. Frames of differing
/// dimensions are rejected with `DimensionMismatch` and no frame is produced.
pub fn lighten(a: &Frame, b: &Frame) -> (r: Result<Frame, StackError>)
    requires
        a.wf(),
        b.wf(),
    ensures
        match r {
            Ok(out) => same_dims(a@, b@) && out.wf() && out@ == spec_lighten(a@, b@),
            Err(e) => e == StackError::DimensionMismatch && !same_dims(a@, b@),
        },
{
    if a.width != b.width || a.height != b.height {
        return Err(StackError::DimensionMismatch);
    }
    let n: usize = a.data.len();
    let mut data: Vec<Pixel> = Vec::new();
    let mut i: usize = 0;
    while i < n
        invariant
            i <= n,
            n == a@.pixels.len(),
            a@.pixels.len() == b@.pixels.len(),
            data@.len() == i,
            forall|k: int|
                0 <= k < i ==> data@[k] == (if luma1000(a@.pixels[k]) > luma1000(b@.pixels[k]) {
                    a@.pixels[k]
                } else {
                    b@.pixels[k]
                }),
        decreases n - i,
    {
        let pa = a.data[i];
        let pb = b.data[i];
        let la = crate::frame::luma1000_of(pa);
        let lb = crate::frame::luma1000_of(pb);
        if la > lb {
            data.push(pa);
        } else {
            data.push(pb);
        }
        i = i + 1;
    }
    let out = Frame { width: a.width, height: a.height, data };
    proof {
        assert(out@ =~= spec_lighten(a@, b@));
    }
    Ok(out)
}

/// Composites two frames by per-pixel, per-channel averaging: every output
/// channel is `(a + b) / 2`, truncated. Frames of differing dimensions are
/// rejected with `DimensionMismatch` and no frame is produced.
pub fn average(a: &Frame, b: &Frame) -> (r: Result<Frame, StackError>)
    requires
        a.wf(),
        b.wf(),
    ensures
        match r {
            Ok(out) => same_dims(a@, b@) && out.wf() && out@ == spec_average(a@, b@),
            Err(e) => e == StackError::DimensionMismatch && !same_dims(a@, b@),
        },
{
    if a.width != b.width || a.height != b.height {
        return Err(StackError::DimensionMismatch);
    }
    let n: usize = a.data.len();
    let mut data: Vec<Pixel> = Vec::new();
    let mut i: usize = 0;
    while i < n
        invariant
            i <= n,
            n == a@.pixels.len(),
            a@.pixels.len() == b@.pixels.len(),
            data@.len() == i,
            forall|k: int| 0 <= k < i ==> data@[k] == avg_pixel(a@.pixels[k], b@.pixels[k]),
        decreases n - i,
    {
        let pa = a.data[i];
        let pb = b.data[i];
        let avg = Pixel {
            r: (((pa.r as u16) + (pb.r as u16)) / 2) as u8,
            g: (((pa.g as u16) + (pb.g as u16)) / 2) as u8,
            b: (((pa.b as u16) + (pb.b as u16)) / 2) as u8,
        };
        data.push(avg);
        i = i + 1;
    }
    let out = Frame { width: a.width, height: a.height, data };
    proof {
        assert(out@ =~= spec_average(a@, b@));
    }
    Ok(out)
}

/// The left-to-right compare-lighten fold over a non-empty ordered sequence
/// of frames. The fold order is pinned behaviour: it decides tie-breaks.
pub open spec fn spec_lighten_fold(frames: Seq<FrameView>) -> FrameView
    decreases frames.len(),
{
    if frames.len() <= 1 {
        frames[0]
    } else {
        spec_lighten(spec_lighten_fold(frames.drop_last()), frames.last())
    }
}

/// The left-to-right average fold over a non-empty ordered sequence of
/// frames. Each intermediate result is truncated before the next fold, so
/// this is deliberately not a true N-way mean.
pub open spec fn spec_average_fold(frames: Seq<FrameView>) -> FrameView
    decreases frames.len(),
{
    if frames.len() <= 1 {
        frames[0]
    } else {
        spec_average(spec_average_fold(frames.drop_last()), frames.last())
    }
}

/// Every frame of a sequence has the dimensions of the first one.
pub open spec fn all_same_dims(frames: Seq<FrameView>) -> bool {
    forall|i: int| 0 <= i < frames.len() ==> same_dims(frames[0], #[trigger] frames[i])
}

/// Stacks an ordered, non-empty list of frames by folding `lighten` left to
/// right. Any dimension disagreement aborts with `DimensionMismatch`.
pub fn stack_lighten(frames: &Vec<Frame>) -> (r: Result<Frame, StackError>)
    requires
        frames@.len() >= 1,
        forall|i: int| 0 <= i < frames@.len() ==> (#[trigger] frames@[i]).wf(),
    ensures
        match r {
            Ok(out) => all_same_dims(frames@.map_values(|f: Frame| f@)) && out.wf() && out@
                == spec_lighten_fold(frames@.map_values(|f: Frame| f@)),
            Err(e) => e == StackError::DimensionMismatch && !all_same_dims(
                frames@.map_values(|f: Frame| f@),
            ),
        },
{
    let ghost views = frames@.map_values(|f: Frame| f@);
    let mut acc = clone_frame(&frames[0]);
    let mut i: usize = 1;
    while i < frames.len()
        invariant
            1 <= i <= frames@.len(),
            views == frames@.map_values(|f: Frame| f@),
            forall|k: int| 0 <= k < frames@.len() ==> (#[trigger] frames@[k]).wf(),
            acc.wf(),
            acc@ == spec_lighten_fold(views.take(i as int)),
            forall|k: int| 0 <= k < i ==> same_dims(views[0], #[trigger] views[k]),
        decreases frames@.len() - i,
    {
        proof {
            lemma_fold_dims_lighten(views.take(i as int));
            assert(views.take(i + 1).drop_last() =~= views.take(i as int));
        }
        match lighten(&acc, &frames[i]) {
            Ok(next) => {
                acc = next;
            },
            Err(e) => {
                proof {
                    assert(views[i as int] == frames@[i as int]@);
                    assert(!same_dims(views[0], views[i as int]));
                }
                return Err(e);
            },
        }
        i = i + 1;
    }
    proof {
        assert(views.take(frames@.len() as int) =~= views);
    }
    Ok(acc)
}

/// Stacks an ordered, non-empty list of frames by folding `average` left to
/// right. Any dimension disagreement aborts with `DimensionMismatch`.
pub fn stack_average(frames: &Vec<Frame>) -> (r: Result<Frame, StackError>)
    requires
        frames@.len() >= 1,
        forall|i: int| 0 <= i < frames@.len() ==> (#[trigger] frames@[i]).wf(),
    ensures
        match r {
            Ok(out) => all_same_dims(frames@.map_values(|f: Frame| f@)) && out.wf() && out@
                == spec_average_fold(frames@.map_values(|f: Frame| f@)),
            Err(e) => e == StackError::DimensionMismatch && !all_same_dims(
                frames@.map_values(|f: Frame| f@),
            ),
        },
{
    let ghost views = frames@.map_values(|f: Frame| f@);
    let mut acc = clone_frame(&frames[0]);
    let mut i: usize = 1;
    while i < frames.len()
        invariant
            1 <= i <= frames@.len(),
            views == frames@.map_values(|f: Frame| f@),
            forall|k: int| 0 <= k < frames@.len() ==> (#[trigger] frames@[k]).wf(),
            acc.wf(),
            acc@ == spec_average_fold(views.take(i as int)),
            forall|k: int| 0 <= k < i ==> same_dims(views[0], #[trigger] views[k]),
        decreases frames@.len() - i,
    {
        proof {
            lemma_fold_dims_average(views.take(i as int));
            assert(views.take(i + 1).drop_last() =~= views.take(i as int));
        }
        match average(&acc, &frames[i]) {
            Ok(next) => {
                acc = next;
            },
            Err(e) => {
                proof {
                    assert(views[i as int] == frames@[i as int]@);
                    assert(!same_dims(views[0], views[i as int]));
                }
                return Err(e);
            },
        }
        i = i + 1;
    }
    proof {
        assert(views.take(frames@.len() as int) =~= views);
    }
    Ok(acc)
}

/// Copies a frame; stages hand frames on by value, so the caller of a stack
/// keeps its inputs.
pub fn clone_frame(f: &Frame) -> (r: Frame)
    ensures
        r@ == f@,
        r.width == f.width,
        r.height == f.height,
{
    let mut data: Vec<Pixel> = Vec::new();
    let n: usize = f.data.len();
    let mut i: usize = 0;
    while i < n
        invariant
            i <= n,
            n == f@.pixels.len(),
            data@.len() == i,
            forall|k: int| 0 <= k < i ==> data@[k] == f@.pixels[k],
        decreases n - i,
    {
        data.push(f.data[i]);
        i = i + 1;
    }
    let out = Frame { width: f.width, height: f.height, data };
    proof {
        assert(out@ =~= f@);
    }
    out
}

/// A lighten fold keeps the dimensions of the first frame.
proof fn lemma_fold_dims_lighten(frames: Seq<FrameView>)
    requires
        frames.len() >= 1,
    ensures
        spec_lighten_fold(frames).width == frames[0].width,
        spec_lighten_fold(frames).height == frames[0].height,
    decreases frames.len(),
{
    if frames.len() > 1 {
        lemma_fold_dims_lighten(frames.drop_last());
    }
}

/// An average fold keeps the dimensions of the first frame.
proof fn lemma_fold_dims_average(frames: Seq<FrameView>)
    requires
        frames.len() >= 1,
    ensures
        spec_average_fold(frames).width == frames[0].width,
        spec_average_fold(frames).height == frames[0].height,
    decreases frames.len(),
{
    if frames.len() > 1 {
        lemma_fold_dims_average(frames.drop_last());
    }
}

} // verus!
