use vstd::prelude::*;

use crate::StackError;
use crate::affine::AffineTransform;
use crate::affine::Point;
use crate::affine::all_in_bounds;
use crate::affine::count_inliers;
use crate::affine::estimate_affine;
use crate::frame::Frame;
use crate::matching::MAX_DESC_LEN;
use crate::matching::Match;
use crate::matching::good_matches;
use crate::matching::lemma_matches_are_good;
use crate::warp::det2;
use crate::warp::invertible;
use crate::warp::lemma_warp_identity;
use crate::warp::spec_warp;
use crate::warp::warp;

verus! {

/// The destination points of the good matches: for each accepted match, the
/// keypoint of frame A it names.
pub open spec fn matched_dst(
    kps_a: Seq<Point>,
    a: Seq<Seq<u8>>,
    b: Seq<Seq<u8>>,
) -> Seq<Point> {
    good_matches(a, b, a.len() as int).map_values(|m: Match| kps_a[m.query_idx as int])
}

/// The source points of the good matches: for each accepted match, the
/// keypoint of frame B it names.
pub open spec fn matched_src(
    kps_b: Seq<Point>,
    a: Seq<Seq<u8>>,
    b: Seq<Seq<u8>>,
) -> Seq<Point> {
    good_matches(a, b, a.len() as int).map_values(|m: Match| kps_b[m.train_idx as int])
}

/// Registers frame B against frame A from their keypoints and descriptors:
/// matches the descriptors under the cross-checked Hamming criterion, fails
/// with `InsufficientCorrespondences` when fewer than three good matches
/// remain, and otherwise estimates the affine transform T with
/// T(point of B) ~ point of A over the matched pairs. Success is owed on the
/// self-registration shape: when the matched point pairs coincide, with at
/// least ten of them and an early non-degenerate triple, the result is `Ok`
/// with full consensus and the identity transform; and when at least three
/// matches remain but their source points are all collinear, the estimation
/// fails with `AlignmentFailed`.
pub fn register(
    kps_a: &Vec<Point>,
    descs_a: &Vec<Vec<u8>>,
    kps_b: &Vec<Point>,
    descs_b: &Vec<Vec<u8>>,
    desc_len: usize,
) -> (r: Result<(AffineTransform, usize), StackError>)
    requires
        kps_a@.len() == descs_a@.len(),
        kps_b@.len() == descs_b@.len(),
        forall|k: int| 0 <= k < descs_a@.len() ==> (#[trigger] descs_a@[k])@.len() == desc_len,
        forall|k: int| 0 <= k < descs_b@.len() ==> (#[trigger] descs_b@[k])@.len() == desc_len,
        desc_len <= MAX_DESC_LEN,
        all_in_bounds(kps_a@),
        all_in_bounds(kps_b@),
    ensures
        ({
            let av = descs_a@.map_values(|d: Vec<u8>| d@);
            let bv = descs_b@.map_values(|d: Vec<u8>| d@);
            let dst = matched_dst(kps_a@, av, bv);
            let src = matched_src(kps_b@, av, bv);
            match r {
                Ok(tc) => good_matches(av, bv, av.len() as int).len() >= 3 && tc.0.wf() && tc.1
                    == count_inliers(tc.0, dst, src) && 10 <= tc.1 <= dst.len(),
                Err(e) => (e == StackError::InsufficientCorrespondences <==> good_matches(
                    av,
                    bv,
                    av.len() as int,
                ).len() < 3) && (e == StackError::InsufficientCorrespondences || e
                    == StackError::AlignmentFailed),
            }
        }),
        ({
            let av = descs_a@.map_values(|d: Vec<u8>| d@);
            let bv = descs_b@.map_values(|d: Vec<u8>| d@);
            let dst = matched_dst(kps_a@, av, bv);
            let src = matched_src(kps_b@, av, bv);
            crate::affine::coincident_nondegenerate(dst, src) ==> (r matches Ok(tc) && tc.1
                == dst.len() && tc.0.is_identity())
        }),
        ({
            let av = descs_a@.map_values(|d: Vec<u8>| d@);
            let bv = descs_b@.map_values(|d: Vec<u8>| d@);
            let src = matched_src(kps_b@, av, bv);
            (good_matches(av, bv, av.len() as int).len() >= 3 && crate::affine::all_collinear(src))
                ==> r == Err::<(AffineTransform, usize), StackError>(StackError::AlignmentFailed)
        }),
{
    let ghost av = descs_a@.map_values(|d: Vec<u8>| d@);
    let ghost bv = descs_b@.map_values(|d: Vec<u8>| d@);
    let len_a: usize = descs_a.len();
    let len_b: usize = descs_b.len();
    proof {
        assert(av.len() == len_a <= usize::MAX);
        assert(bv.len() == len_b <= usize::MAX);
    }
    let ms = crate::matching::matches(descs_a, descs_b, desc_len);
    let ghost gm = good_matches(av, bv, av.len() as int);
    if ms.len() < 3 {
        proof {
            assert(matched_dst(kps_a@, av, bv).len() == gm.len());
            assert(matched_src(kps_b@, av, bv).len() == gm.len());
        }
        return Err(StackError::InsufficientCorrespondences);
    }
    let n: usize = ms.len();
    let mut pa: Vec<Point> = Vec::new();
    let mut pb: Vec<Point> = Vec::new();
    let mut i: usize = 0;
    while i < n
        invariant
            i <= n,
            n == gm.len(),
            ms@ == gm,
            gm == good_matches(av, bv, av.len() as int),
            av == descs_a@.map_values(|d: Vec<u8>| d@),
            bv == descs_b@.map_values(|d: Vec<u8>| d@),
            kps_a@.len() == descs_a@.len(),
            kps_b@.len() == descs_b@.len(),
            forall|k: int| 0 <= k < descs_a@.len() ==> (#[trigger] descs_a@[k])@.len() == desc_len,
            forall|k: int| 0 <= k < descs_b@.len() ==> (#[trigger] descs_b@[k])@.len() == desc_len,
            desc_len <= MAX_DESC_LEN,
            all_in_bounds(kps_a@),
            all_in_bounds(kps_b@),
            av.len() <= usize::MAX,
            bv.len() <= usize::MAX,
            pa@ =~= gm.take(i as int).map_values(|m: Match| kps_a@[m.query_idx as int]),
            pb@ =~= gm.take(i as int).map_values(|m: Match| kps_b@[m.train_idx as int]),
        decreases n - i,
    {
        proof {
            assert(gm.contains(gm[i as int]));
            lemma_matches_are_good(av, bv, desc_len as int, gm[i as int]);
            assert(av.len() == descs_a@.len());
            assert(bv.len() == descs_b@.len());
            assert(gm.take(i + 1).map_values(|m: Match| kps_a@[m.query_idx as int]) =~= gm.take(
                i as int,
            ).map_values(|m: Match| kps_a@[m.query_idx as int]).push(
                kps_a@[gm[i as int].query_idx as int],
            ));
            assert(gm.take(i + 1).map_values(|m: Match| kps_b@[m.train_idx as int]) =~= gm.take(
                i as int,
            ).map_values(|m: Match| kps_b@[m.train_idx as int]).push(
                kps_b@[gm[i as int].train_idx as int],
            ));
        }
        let m = ms[i];
        pa.push(kps_a[m.query_idx]);
        pb.push(kps_b[m.train_idx]);
        i = i + 1;
    }
    proof {
        assert(gm.take(n as int) =~= gm);
        assert(pa@ =~= matched_dst(kps_a@, av, bv));
        assert(pb@ =~= matched_src(kps_b@, av, bv));
        assert(all_in_bounds(pa@)) by {
            assert forall|k: int| 0 <= k < pa@.len() implies crate::affine::in_bounds(
                #[trigger] pa@[k],
            ) by {
                assert(gm.contains(gm[k]));
                lemma_matches_are_good(av, bv, desc_len as int, gm[k]);
                assert(pa@[k] == kps_a@[gm[k].query_idx as int]);
            }
        }
        assert(all_in_bounds(pb@)) by {
            assert forall|k: int| 0 <= k < pb@.len() implies crate::affine::in_bounds(
                #[trigger] pb@[k],
            ) by {
                assert(gm.contains(gm[k]));
                lemma_matches_are_good(av, bv, desc_len as int, gm[k]);
                assert(pb@[k] == kps_b@[gm[k].train_idx as int]);
            }
        }
    }
    match estimate_affine(&pa, &pb) {
        Ok(tc) => Ok(tc),
        Err(_) => Err(StackError::AlignmentFailed),
    }
}

/// Registers frame B against frame A and resamples the target frame through
/// the estimated transform into its own grid — the registration pipeline
/// after feature detection. On the self-registration shape (coincident
/// matched pairs, at least ten, an early non-degenerate triple) the estimate
/// is owed, is the identity, and the warped output equals the target frame
/// pixel for pixel.
pub fn register_and_warp(
    target: &Frame,
    kps_a: &Vec<Point>,
    descs_a: &Vec<Vec<u8>>,
    kps_b: &Vec<Point>,
    descs_b: &Vec<Vec<u8>>,
    desc_len: usize,
) -> (r: Result<(AffineTransform, usize, Frame), StackError>)
    requires
        target.wf(),
        kps_a@.len() == descs_a@.len(),
        kps_b@.len() == descs_b@.len(),
        forall|k: int| 0 <= k < descs_a@.len() ==> (#[trigger] descs_a@[k])@.len() == desc_len,
        forall|k: int| 0 <= k < descs_b@.len() ==> (#[trigger] descs_b@[k])@.len() == desc_len,
        desc_len <= MAX_DESC_LEN,
        all_in_bounds(kps_a@),
        all_in_bounds(kps_b@),
    ensures
        ({
            let av = descs_a@.map_values(|d: Vec<u8>| d@);
            let bv = descs_b@.map_values(|d: Vec<u8>| d@);
            let dst = matched_dst(kps_a@, av, bv);
            let src = matched_src(kps_b@, av, bv);
            match r {
                Ok(tc) => tc.0.wf() && det2(tc.0) != 0 && tc.1 == count_inliers(tc.0, dst, src)
                    && 10 <= tc.1 <= dst.len() && tc.2.wf() && tc.2@ == spec_warp(
                    target@,
                    tc.0,
                    target@.width,
                    target@.height,
                ),
                Err(e) => (e == StackError::InsufficientCorrespondences <==> good_matches(
                    av,
                    bv,
                    av.len() as int,
                ).len() < 3) && (e == StackError::InsufficientCorrespondences || e
                    == StackError::AlignmentFailed),
            }
        }),
        ({
            let av = descs_a@.map_values(|d: Vec<u8>| d@);
            let bv = descs_b@.map_values(|d: Vec<u8>| d@);
            let dst = matched_dst(kps_a@, av, bv);
            let src = matched_src(kps_b@, av, bv);
            crate::affine::coincident_nondegenerate(dst, src) ==> (r matches Ok(tc)
                && tc.0.is_identity() && tc.2@ == target@)
        }),
{
    let t = match register(kps_a, descs_a, kps_b, descs_b, desc_len) {
        Ok(tc) => tc,
        Err(e) => {
            return Err(e);
        },
    };
    if !invertible(&t.0) {
        proof {
            let av = descs_a@.map_values(|d: Vec<u8>| d@);
            let bv = descs_b@.map_values(|d: Vec<u8>| d@);
            let dst = matched_dst(kps_a@, av, bv);
            let src = matched_src(kps_b@, av, bv);
            if crate::affine::coincident_nondegenerate(dst, src) {
                // The identity transform is always invertible.
                assert(t.0.is_identity());
                assert(t.0.den * t.0.den > 0) by (nonlinear_arith)
                    requires
                        t.0.den != 0,
                ;
                assert(0 as i128 * 0 as i128 == 0) by (nonlinear_arith);
                assert(det2(t.0) != 0);
            }
        }
        return Err(StackError::AlignmentFailed);
    }
    let out = warp(target, &t.0, target.width, target.height);
    proof {
        let av = descs_a@.map_values(|d: Vec<u8>| d@);
        let bv = descs_b@.map_values(|d: Vec<u8>| d@);
        let dst = matched_dst(kps_a@, av, bv);
        let src = matched_src(kps_b@, av, bv);
        if crate::affine::coincident_nondegenerate(dst, src) {
            lemma_warp_identity(target@, t.0);
        }
    }
    Ok((t.0, t.1, out))
}

} // verus!
