//! Anchor decoding of raw detector outputs.
//!
//! For each stride the detector emits flattened per-anchor tensors: one
//! score, four box regressions (left, top, right, bottom distances in
//! stride units) and ten keypoint offsets per anchor. The grid is
//! `ceil(height / stride) x ceil(width / stride)` cells with two anchors
//! each, walked row-major; an anchor's flat index is
//! `y * width_cells * 2 + x * 2 + anchor`. Anchors whose flat index lies
//! beyond the score tensor are skipped (the tensor may be smaller than
//! the nominal grid), as are anchors scoring below the confidence
//! threshold. Decoded coordinates are in model-input pixel space.

use vstd::prelude::*;
use crate::faces::{COORD_LIMIT, DetectedFace};
use crate::fixed::FP_HALF;
use crate::nms::all_coords_bounded;
use crate::resolver::MAX_TARGET_DIM;

verus! {

/// Default confidence threshold when the caller supplies none.
pub const DEFAULT_CONF_THRESHOLD: i64 = 700;

/// Largest stride a detection head may use.
pub const MAX_STRIDE: i32 = 256;

/// Bound on the magnitude of a single regression value, in fixed-point
/// thousandths (two million pixels: far beyond any sane model output).
pub const REG_LIMIT: i64 = 2_000_000_000;

/// Bound on tensor lengths, so index arithmetic stays in range.
pub const MAX_TENSOR_LEN: usize = 0x1000_0000;

/// The raw tensors of one stride, flattened row-major: `scores` holds one
/// value per anchor, `boxes` four per anchor, `kps` ten per anchor (the
/// keypoint tensor may be shorter; affected anchors fall back to zero
/// keypoints).
#[derive(Debug, Clone)]
pub struct StrideOutputs {
    pub stride: i32,
    pub scores: Vec<i64>,
    pub boxes: Vec<i64>,
    pub kps: Vec<i64>,
}

impl StrideOutputs {
    /// Shape and range constraints under which decoding is defined.
    pub open spec fn wf(self) -> bool {
        &&& 0 < self.stride <= MAX_STRIDE
        &&& self.scores@.len() <= MAX_TENSOR_LEN
        &&& self.boxes@.len() == 4 * self.scores@.len()
        &&& self.kps@.len() <= 10 * self.scores@.len()
        &&& forall|i: int|
            0 <= i < self.boxes@.len() ==> -REG_LIMIT <= #[trigger] self.boxes@[i] <= REG_LIMIT
        &&& forall|i: int|
            0 <= i < self.kps@.len() ==> -REG_LIMIT <= #[trigger] self.kps@[i] <= REG_LIMIT
    }
}

/// Ceiling division for positive divisors.
pub open spec fn ceil_div(a: int, b: int) -> int {
    (a + b - 1) / b
}

/// Center coordinate of a grid cell, in fixed-point thousandths:
/// `(cell + 0.5) * stride` pixels.
pub open spec fn anchor_center(cell: int, stride: int) -> int {
    (2 * cell + 1) * stride * FP_HALF
}

/// The face decoded at one flat anchor index of one stride.
pub open spec fn decoded_face(
    stride: int,
    scores: Seq<i64>,
    boxes: Seq<i64>,
    kps: Seq<i64>,
    fw: int,
    idx: int,
) -> DetectedFace {
    let x = (idx / 2) % fw;
    let y = idx / (2 * fw);
    let cx = anchor_center(x, stride);
    let cy = anchor_center(y, stride);
    let bbox = [
        (cx - boxes[4 * idx] * stride) as i64,
        (cy - boxes[4 * idx + 1] * stride) as i64,
        (cx + boxes[4 * idx + 2] * stride) as i64,
        (cy + boxes[4 * idx + 3] * stride) as i64,
    ];
    let kp = if 10 * idx + 10 <= kps.len() {
        [
            (cx + kps[10 * idx] * stride) as i64,
            (cy + kps[10 * idx + 1] * stride) as i64,
            (cx + kps[10 * idx + 2] * stride) as i64,
            (cy + kps[10 * idx + 3] * stride) as i64,
            (cx + kps[10 * idx + 4] * stride) as i64,
            (cy + kps[10 * idx + 5] * stride) as i64,
            (cx + kps[10 * idx + 6] * stride) as i64,
            (cy + kps[10 * idx + 7] * stride) as i64,
            (cx + kps[10 * idx + 8] * stride) as i64,
            (cy + kps[10 * idx + 9] * stride) as i64,
        ]
    } else {
        [0i64, 0i64, 0i64, 0i64, 0i64, 0i64, 0i64, 0i64, 0i64, 0i64]
    };
    DetectedFace { bbox, kps: kp, score: scores[idx] }
}

/// Whether the anchor at `idx` yields a proposal: inside the score
/// tensor and at least as confident as the threshold.
pub open spec fn anchor_accepted(scores: Seq<i64>, thr: int, idx: int) -> bool {
    idx < scores.len() && scores[idx] >= thr
}

/// The proposals of one stride among the first `upto` anchor indices, in
/// index order.
pub open spec fn stride_faces_upto(
    stride: int,
    scores: Seq<i64>,
    boxes: Seq<i64>,
    kps: Seq<i64>,
    fw: int,
    thr: int,
    upto: int,
) -> Seq<DetectedFace>
    decreases upto,
{
    if upto <= 0 {
        Seq::empty()
    } else {
        let prev = stride_faces_upto(stride, scores, boxes, kps, fw, thr, upto - 1);
        if anchor_accepted(scores, thr, upto - 1) {
            prev.push(decoded_face(stride, scores, boxes, kps, fw, upto - 1))
        } else {
            prev
        }
    }
}

/// All proposals of one stride over its nominal grid.
pub open spec fn stride_proposals(o: StrideOutputs, tw: int, th: int, thr: int) -> Seq<
    DetectedFace,
> {
    let fh = ceil_div(th, o.stride as int);
    let fw = ceil_div(tw, o.stride as int);
    stride_faces_upto(o.stride as int, o.scores@, o.boxes@, o.kps@, fw, thr, fh * fw * 2)
}

/// The proposals of every stride, concatenated in stride order.
pub open spec fn all_proposals(
    outputs: Seq<StrideOutputs>,
    tw: int,
    th: int,
    thr: int,
) -> Seq<DetectedFace>
    decreases outputs.len(),
{
    if outputs.len() == 0 {
        Seq::empty()
    } else {
        all_proposals(outputs.drop_last(), tw, th, thr) + stride_proposals(
            outputs.last(),
            tw,
            th,
            thr,
        )
    }
}

/// A regression value scaled by the stride stays far inside the
/// coordinate range.
proof fn lemma_reg_product_bounded(v: i64, s: i64)
    requires
        -REG_LIMIT <= v <= REG_LIMIT,
        0 < s <= MAX_STRIDE,
    ensures
        -600_000_000_000 <= v * s <= 600_000_000_000,
{
    assert(-600_000_000_000 <= v as int * s as int <= 600_000_000_000int) by (nonlinear_arith)
        requires
            -REG_LIMIT as int <= v as int <= REG_LIMIT as int,
            0 < s as int <= MAX_STRIDE as int,
    ;
}

/// Center of a grid cell in fixed-point thousandths.
fn anchor_center_exec(cell: u32, stride: i32) -> (r: i64)
    requires
        0 < stride <= MAX_STRIDE,
        cell <= 2 * MAX_TARGET_DIM,
    ensures
        r == anchor_center(cell as int, stride as int),
        0 <= r <= 6_000_000_000,
{
    proof {
        assert((2 * cell as int + 1) * stride as int * FP_HALF as int <= 6_000_000_000int)
            by (nonlinear_arith)
            requires
                0 <= cell as int <= 2 * MAX_TARGET_DIM as int,
                0 < stride as int <= MAX_STRIDE as int,
        ;
        assert(0 <= (2 * cell as int + 1) * stride as int * FP_HALF as int) by (nonlinear_arith)
            requires
                0 <= cell as int,
                0 < stride as int,
        ;
    }
    (2 * (cell as i64) + 1) * (stride as i64) * FP_HALF
}

/// Decodes the raw tensors of every stride into candidate faces in
/// model-input pixel space: exactly the anchors inside the score tensor
/// that meet the confidence threshold, in stride order and anchor-index
/// order within a stride.
pub fn decode_proposals(
    outputs: &Vec<StrideOutputs>,
    img_width: u32,
    img_height: u32,
    conf_threshold: i64,
) -> (r: Vec<DetectedFace>)
    requires
        forall|i: int| 0 <= i < outputs@.len() ==> (#[trigger] outputs@[i]).wf(),
        0 < img_width <= MAX_TARGET_DIM,
        0 < img_height <= MAX_TARGET_DIM,
    ensures
        r@ == all_proposals(outputs@, img_width as int, img_height as int, conf_threshold as int),
        all_coords_bounded(r@),
{
    let ghost tw = img_width as int;
    let ghost th = img_height as int;
    let ghost thr = conf_threshold as int;
    let mut proposals: Vec<DetectedFace> = Vec::new();

    let mut oi: usize = 0;
    while oi < outputs.len()
        invariant
            0 <= oi <= outputs@.len(),
            forall|i: int| 0 <= i < outputs@.len() ==> (#[trigger] outputs@[i]).wf(),
            0 < img_width <= MAX_TARGET_DIM,
            0 < img_height <= MAX_TARGET_DIM,
            tw == img_width as int,
            th == img_height as int,
            thr == conf_threshold as int,
            proposals@ == all_proposals(outputs@.subrange(0, oi as int), tw, th, thr),
            all_coords_bounded(proposals@),
        decreases outputs@.len() - oi,
    {
        let o = &outputs[oi];
        let stride = o.stride;
        let su = stride as u32;
        let feature_height = (img_height + su - 1) / su;
        let feature_width = (img_width + su - 1) / su;
        proof {
            assert(feature_height as int == ceil_div(th, stride as int));
            assert(feature_width as int == ceil_div(tw, stride as int));
            assert(1 <= feature_height as int && feature_height as int * stride as int <= th
                + stride as int - 1) by {
                vstd::arithmetic::div_mod::lemma_div_pos_is_pos(
                    th + stride as int - 1,
                    stride as int,
                );
                vstd::arithmetic::div_mod::lemma_fundamental_div_mod(
                    th + stride as int - 1,
                    stride as int,
                );
                vstd::arithmetic::div_mod::lemma_mod_bound(th + stride as int - 1, stride as int);
                assert(feature_height as int >= 1) by (nonlinear_arith)
                    requires
                        feature_height as int == (th + stride as int - 1) / stride as int,
                        th >= 1,
                        stride as int >= 1,
                ;
            }
            assert(1 <= feature_width as int && feature_width as int <= MAX_TARGET_DIM as int) by {
                vstd::arithmetic::div_mod::lemma_div_pos_is_pos(
                    tw + stride as int - 1,
                    stride as int,
                );
                assert(feature_width as int >= 1 && feature_width as int <= tw) by (nonlinear_arith)
                    requires
                        feature_width as int == (tw + stride as int - 1) / stride as int,
                        1 <= tw,
                        1 <= stride as int,
                ;
            }
            assert(1 <= feature_height as int && feature_height as int <= MAX_TARGET_DIM as int)
                by {
                assert(feature_height as int <= th) by (nonlinear_arith)
                    requires
                        feature_height as int == (th + stride as int - 1) / stride as int,
                        1 <= th,
                        1 <= stride as int,
                ;
            }
        }
        proof {
            assert(feature_height as int * feature_width as int * 2 <= MAX_TARGET_DIM as int
                * MAX_TARGET_DIM as int * 2) by (nonlinear_arith)
                requires
                    1 <= feature_height as int <= MAX_TARGET_DIM as int,
                    1 <= feature_width as int <= MAX_TARGET_DIM as int,
            ;
            assert(0 < feature_height as int * feature_width as int * 2) by (nonlinear_arith)
                requires
                    1 <= feature_height as int,
                    1 <= feature_width as int,
            ;
        }
        let total: usize = (feature_height as usize) * (feature_width as usize) * 2;
        let ghost fw = feature_width as int;
        let ghost sv = o.scores@;
        let ghost bv = o.boxes@;
        let ghost kv = o.kps@;

        let mut idx: usize = 0;
        while idx < total
            invariant
                0 <= idx <= total,
                o == outputs@[oi as int],
                o.wf(),
                0 < stride <= MAX_STRIDE,
                stride == o.stride,
                0 < img_width <= MAX_TARGET_DIM,
                0 < img_height <= MAX_TARGET_DIM,
                tw == img_width as int,
                th == img_height as int,
                thr == conf_threshold as int,
                1 <= feature_width as int <= MAX_TARGET_DIM,
                1 <= feature_height as int <= MAX_TARGET_DIM,
                fw == feature_width as int,
                sv == o.scores@,
                bv == o.boxes@,
                kv == o.kps@,
                total == feature_height as int * feature_width as int * 2,
                0 <= oi < outputs@.len(),
                proposals@ == all_proposals(outputs@.subrange(0, oi as int), tw, th, thr)
                    + stride_faces_upto(stride as int, sv, bv, kv, fw, thr, idx as int),
                all_coords_bounded(proposals@),
            decreases total - idx,
        {
            if idx < o.scores.len() {
                let score = o.scores[idx];
                if score >= conf_threshold {
                    let x = ((idx / 2) % (feature_width as usize)) as u32;
                    let y = (idx / (2 * (feature_width as usize))) as u32;
                    proof {
                        vstd::arithmetic::div_mod::lemma_mod_bound(
                            idx as int / 2,
                            feature_width as int,
                        );
                        vstd::arithmetic::div_mod::lemma_div_pos_is_pos(idx as int, 2);
                        vstd::arithmetic::div_mod::lemma_div_pos_is_pos(
                            idx as int,
                            2 * feature_width as int,
                        );
                        assert((idx as int) < (2 * feature_width as int) * (
                        feature_height as int)) by (nonlinear_arith)
                            requires
                                (idx as int) < feature_height as int * feature_width as int * 2,
                        ;
                        vstd::arithmetic::div_mod::lemma_multiply_divide_lt(
                            idx as int,
                            2 * feature_width as int,
                            feature_height as int,
                        );
                    }
                    let cx = anchor_center_exec(x, stride);
                    let cy = anchor_center_exec(y, stride);
                    let s64 = stride as i64;
                    proof {
                        assert(4 * idx + 3 < bv.len());
                        lemma_reg_product_bounded(bv[4 * idx as int], s64);
                        lemma_reg_product_bounded(bv[4 * idx as int + 1], s64);
                        lemma_reg_product_bounded(bv[4 * idx as int + 2], s64);
                        lemma_reg_product_bounded(bv[4 * idx as int + 3], s64);
                    }
                    let l = o.boxes[4 * idx] * s64;
                    let t = o.boxes[4 * idx + 1] * s64;
                    let rr = o.boxes[4 * idx + 2] * s64;
                    let bb = o.boxes[4 * idx + 3] * s64;
                    let bbox = [cx - l, cy - t, cx + rr, cy + bb];
                    let kp: [i64; 10] = if 10 * idx + 10 <= o.kps.len() {
                        proof {
                            lemma_reg_product_bounded(kv[10 * idx as int], s64);
                            lemma_reg_product_bounded(kv[10 * idx as int + 1], s64);
                            lemma_reg_product_bounded(kv[10 * idx as int + 2], s64);
                            lemma_reg_product_bounded(kv[10 * idx as int + 3], s64);
                            lemma_reg_product_bounded(kv[10 * idx as int + 4], s64);
                            lemma_reg_product_bounded(kv[10 * idx as int + 5], s64);
                            lemma_reg_product_bounded(kv[10 * idx as int + 6], s64);
                            lemma_reg_product_bounded(kv[10 * idx as int + 7], s64);
                            lemma_reg_product_bounded(kv[10 * idx as int + 8], s64);
                            lemma_reg_product_bounded(kv[10 * idx as int + 9], s64);
                        }
                        [
                            cx + o.kps[10 * idx] * s64,
                            cy + o.kps[10 * idx + 1] * s64,
                            cx + o.kps[10 * idx + 2] * s64,
                            cy + o.kps[10 * idx + 3] * s64,
                            cx + o.kps[10 * idx + 4] * s64,
                            cy + o.kps[10 * idx + 5] * s64,
                            cx + o.kps[10 * idx + 6] * s64,
                            cy + o.kps[10 * idx + 7] * s64,
                            cx + o.kps[10 * idx + 8] * s64,
                            cy + o.kps[10 * idx + 9] * s64,
                        ]
                    } else {
                        [0i64, 0i64, 0i64, 0i64, 0i64, 0i64, 0i64, 0i64, 0i64, 0i64]
                    };
                    let face = DetectedFace { bbox, kps: kp, score };
                    proof {
                        let sf = decoded_face(stride as int, sv, bv, kv, fw, idx as int);
                        assert(face.bbox@ =~= sf.bbox@);
                        assert(face.kps@ =~= sf.kps@);
                        assert(face.bbox =~= sf.bbox);
                        assert(face.kps =~= sf.kps);
                        assert(face == sf);
                        assert(face.coords_bounded());
                    }
                    proposals.push(face);
                }
            }
            proof {
                assert(proposals@ == all_proposals(outputs@.subrange(0, oi as int), tw, th, thr)
                    + stride_faces_upto(stride as int, sv, bv, kv, fw, thr, idx as int + 1));
            }
            idx += 1;
        }
        proof {
            assert(outputs@.subrange(0, oi as int + 1).drop_last() =~= outputs@.subrange(
                0,
                oi as int,
            ));
            assert(outputs@.subrange(0, oi as int + 1).last() == outputs@[oi as int]);
            assert(stride_faces_upto(stride as int, sv, bv, kv, fw, thr, total as int)
                == stride_proposals(outputs@[oi as int], tw, th, thr));
        }
        oi += 1;
    }
    proof {
        assert(outputs@.subrange(0, outputs@.len() as int) =~= outputs@);
    }
    proposals
}

} // verus!
