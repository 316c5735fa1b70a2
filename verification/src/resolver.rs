//! Shape-based discovery of detector output roles.
//!
//! A detector model exposes anonymous output tensors. At startup the
//! session is probed once with a synthetic input; each output's shape then
//! identifies its role. For a stride `s` on a `target_height x target_width`
//! input, the expected anchor count is
//! `(target_height / s) * (target_width / s) * 2` (floor division, two
//! anchors per spatial location). A rank-2 output whose first dimension
//! equals that count is classified by its channel count: 1 is a score
//! tensor, 4 a bounding-box tensor, 10 a keypoint tensor. The first match
//! in output order wins each role.

use vstd::prelude::*;
use vstd::string::StringExecFns;
use crate::config::{decimal_spec, decimal_string};
use crate::error::AppError;

verus! {

/// Anchors per spatial location of a detection head.
pub const ANCHORS_PER_LOCATION: u32 = 2;

/// Upper bound on plausible model input dimensions; larger ones are
/// rejected at startup.
pub const MAX_TARGET_DIM: u32 = 10000;

/// Expected flattened anchor count of a stride's outputs.
pub open spec fn expected_anchors(stride: int, target_height: int, target_width: int) -> int {
    (target_height / stride) * (target_width / stride) * 2
}

/// Whether a tensor shape marks the output as filling `role` (the channel
/// count: 1 score, 4 bounding box, 10 keypoints) for a stride expecting
/// `expected` anchors.
pub open spec fn is_role_match(shape: Seq<usize>, expected: int, channels: int) -> bool {
    shape.len() == 2 && shape[0] == expected && shape[1] == channels
}

/// Whether some output matches the role.
pub open spec fn has_role_match(shapes: Seq<Seq<usize>>, expected: int, channels: int) -> bool {
    exists|i: int| 0 <= i < shapes.len() && is_role_match(#[trigger] shapes[i], expected, channels)
}

/// Whether `at` is the first output matching the role.
pub open spec fn first_role_match(
    shapes: Seq<Seq<usize>>,
    expected: int,
    channels: int,
    at: int,
) -> bool {
    &&& 0 <= at < shapes.len()
    &&& is_role_match(shapes[at], expected, channels)
    &&& forall|j: int| 0 <= j < at ==> !is_role_match(#[trigger] shapes[j], expected, channels)
}

/// Whether a stride resolves completely against the output shapes.
pub open spec fn stride_resolves(
    shapes: Seq<Seq<usize>>,
    stride: int,
    target_height: int,
    target_width: int,
) -> bool {
    let e = expected_anchors(stride, target_height, target_width);
    has_role_match(shapes, e, 1) && has_role_match(shapes, e, 4) && has_role_match(shapes, e, 10)
}

/// Finds the first score, bounding-box and keypoint output for one stride,
/// or `None` when any of the three roles has no matching output.
pub fn match_outputs_by_shape(
    shapes: &Vec<Vec<usize>>,
    stride: i32,
    target_height: u32,
    target_width: u32,
) -> (r: Option<(usize, usize, usize)>)
    requires
        stride > 0,
        target_height <= MAX_TARGET_DIM,
        target_width <= MAX_TARGET_DIM,
    ensures
        r is Some <==> stride_resolves(
            shapes@.map_values(|s: Vec<usize>| s@),
            stride as int,
            target_height as int,
            target_width as int,
        ),
        r matches Some((s, b, k)) ==> {
            let sh = shapes@.map_values(|v: Vec<usize>| v@);
            let e = expected_anchors(stride as int, target_height as int, target_width as int);
            &&& first_role_match(sh, e, 1, s as int)
            &&& first_role_match(sh, e, 4, b as int)
            &&& first_role_match(sh, e, 10, k as int)
        },
{
    let ghost sh = shapes@.map_values(|v: Vec<usize>| v@);
    let feat_h = target_height / (stride as u32);
    let feat_w = target_width / (stride as u32);
    proof {
        vstd::arithmetic::div_mod::lemma_div_nonincreasing(target_height as int, stride as int);
        vstd::arithmetic::div_mod::lemma_div_nonincreasing(target_width as int, stride as int);
        assert(feat_h as int * feat_w as int * 2 <= MAX_TARGET_DIM as int * MAX_TARGET_DIM as int
            * 2) by (nonlinear_arith)
            requires
                0 <= feat_h as int <= MAX_TARGET_DIM as int,
                0 <= feat_w as int <= MAX_TARGET_DIM as int,
        ;
    }
    let expected_total_anchors: u64 = (feat_h as u64) * (feat_w as u64) * (
    ANCHORS_PER_LOCATION as u64);
    let ghost e = expected_anchors(stride as int, target_height as int, target_width as int);
    assert(expected_total_anchors == e);

    let mut score_idx: Option<usize> = None;
    let mut bbox_idx: Option<usize> = None;
    let mut kps_idx: Option<usize> = None;

    let mut idx: usize = 0;
    while idx < shapes.len()
        invariant
            0 <= idx <= shapes.len(),
            sh == shapes@.map_values(|v: Vec<usize>| v@),
            sh.len() == shapes.len(),
            forall|i: int| 0 <= i < sh.len() ==> #[trigger] sh[i] == shapes@[i]@,
            e == expected_anchors(stride as int, target_height as int, target_width as int),
            expected_total_anchors == e,
            score_idx matches Some(i) ==> i < idx && first_role_match(sh, e, 1, i as int),
            score_idx is None ==> forall|j: int|
                0 <= j < idx ==> !is_role_match(#[trigger] sh[j], e, 1),
            bbox_idx matches Some(i) ==> i < idx && first_role_match(sh, e, 4, i as int),
            bbox_idx is None ==> forall|j: int|
                0 <= j < idx ==> !is_role_match(#[trigger] sh[j], e, 4),
            kps_idx matches Some(i) ==> i < idx && first_role_match(sh, e, 10, i as int),
            kps_idx is None ==> forall|j: int|
                0 <= j < idx ==> !is_role_match(#[trigger] sh[j], e, 10),
        decreases shapes.len() - idx,
    {
        let shape = &shapes[idx];
        if shape.len() == 2 {
            let num_elements = shape[0];
            let channels = shape[1];
            if (num_elements as u64) == expected_total_anchors {
                if channels == 1 {
                    if score_idx.is_none() {
                        score_idx = Some(idx);
                    }
                } else if channels == 4 {
                    if bbox_idx.is_none() {
                        bbox_idx = Some(idx);
                    }
                } else if channels == 10 {
                    if kps_idx.is_none() {
                        kps_idx = Some(idx);
                    }
                }
            }
        }
        idx += 1;
    }

    match (score_idx, bbox_idx, kps_idx) {
        (Some(score), Some(bbox), Some(kps)) => Some((score, bbox, kps)),
        _ => None,
    }
}

/// Whether the target dimensions are usable at all.
pub open spec fn dims_plausible(target_height: int, target_width: int) -> bool {
    0 < target_height <= MAX_TARGET_DIM && 0 < target_width <= MAX_TARGET_DIM
}

/// Whether every configured stride resolves against the output shapes.
pub open spec fn all_strides_resolve(
    shapes: Seq<Seq<usize>>,
    strides: Seq<i32>,
    target_height: int,
    target_width: int,
) -> bool {
    forall|i: int|
        0 <= i < strides.len() ==> stride_resolves(
            shapes,
            #[trigger] strides[i] as int,
            target_height,
            target_width,
        )
}

/// Whether one mapping entry carries the first-match indices of its stride.
pub open spec fn entry_matches(
    shapes: Seq<Seq<usize>>,
    stride: int,
    target_height: int,
    target_width: int,
    entry: (i32, (usize, usize, usize)),
) -> bool {
    let e = expected_anchors(stride, target_height, target_width);
    &&& entry.0 == stride
    &&& first_role_match(shapes, e, 1, entry.1.0 as int)
    &&& first_role_match(shapes, e, 4, entry.1.1 as int)
    &&& first_role_match(shapes, e, 10, entry.1.2 as int)
}

/// The message reported for implausible target dimensions.
pub open spec fn invalid_dims_message(target_height: int, target_width: int) -> Seq<char> {
    "Invalid target dimensions: "@ + decimal_spec(target_width as nat) + "x"@ + decimal_spec(
        target_height as nat,
    )
}

/// The message reported for a stride with no complete output triple.
pub open spec fn unresolved_stride_message(stride: int) -> Seq<char> {
    "Could not find matching outputs for stride "@ + decimal_spec(stride as nat)
}

/// Resolves the output mapping for every configured stride from the output
/// tensor shapes observed on a synthetic run.
///
/// Succeeds exactly when the dimensions are plausible, at least one stride
/// is configured, and every stride finds a score, bounding-box and
/// keypoint output; the mapping then lists, per stride in configured
/// order, the first matching output index for each role.
pub fn resolve_output_mapping(
    shapes: &Vec<Vec<usize>>,
    strides: &Vec<i32>,
    target_height: u32,
    target_width: u32,
) -> (r: Result<Vec<(i32, (usize, usize, usize))>, AppError>)
    requires
        forall|i: int| 0 <= i < strides@.len() ==> #[trigger] strides@[i] > 0,
    ensures
        ({
            let sh = shapes@.map_values(|v: Vec<usize>| v@);
            let th = target_height as int;
            let tw = target_width as int;
            &&& (r is Ok <==> dims_plausible(th, tw) && strides@.len() > 0 && all_strides_resolve(
                sh,
                strides@,
                th,
                tw,
            ))
            &&& (r matches Ok(m) ==> m@.len() == strides@.len() && forall|i: int|
                0 <= i < strides@.len() ==> entry_matches(sh, #[trigger] strides@[i] as int, th, tw, m@[i]))
            &&& (!dims_plausible(th, tw) ==> (r matches Err(AppError::BadRequest(m)) && m@
                == invalid_dims_message(th, tw)))
            &&& ((dims_plausible(th, tw) && !all_strides_resolve(sh, strides@, th, tw)) ==> exists|j: int|
                0 <= j < strides@.len() && !stride_resolves(sh, #[trigger] strides@[j] as int, th, tw)
                && (forall|k: int| 0 <= k < j ==> stride_resolves(sh, #[trigger] strides@[k] as int, th, tw))
                && (r matches Err(AppError::BadRequest(m)) && m@ == unresolved_stride_message(
                    strides@[j] as int,
                )))
            &&& ((dims_plausible(th, tw) && strides@.len() == 0) ==> (r matches Err(
                AppError::BadRequest(m),
            ) && m@ == "No valid output mappings found for any stride"@))
        }),
{
    let ghost sh = shapes@.map_values(|v: Vec<usize>| v@);
    let ghost th = target_height as int;
    let ghost tw = target_width as int;

    if target_height == 0 || target_width == 0 || target_height > MAX_TARGET_DIM || target_width
        > MAX_TARGET_DIM {
        let mut msg = String::from_str("Invalid target dimensions: ");
        msg.append(decimal_string(target_width as u64).as_str());
        msg.append("x");
        msg.append(decimal_string(target_height as u64).as_str());
        return Err(AppError::BadRequest(msg));
    }

    let mut stride_output_mapping: Vec<(i32, (usize, usize, usize))> = Vec::new();
    let mut i: usize = 0;
    while i < strides.len()
        invariant
            0 <= i <= strides.len(),
            sh == shapes@.map_values(|v: Vec<usize>| v@),
            th == target_height as int,
            tw == target_width as int,
            dims_plausible(th, tw),
            forall|k: int| 0 <= k < strides@.len() ==> #[trigger] strides@[k] > 0,
            stride_output_mapping@.len() == i,
            forall|k: int|
                0 <= k < i ==> entry_matches(
                    sh,
                    #[trigger] strides@[k] as int,
                    th,
                    tw,
                    stride_output_mapping@[k],
                ),
            forall|k: int| 0 <= k < i ==> stride_resolves(sh, #[trigger] strides@[k] as int, th, tw),
        decreases strides.len() - i,
    {
        let stride = strides[i];
        match match_outputs_by_shape(shapes, stride, target_height, target_width) {
            Some(triple) => {
                stride_output_mapping.push((stride, triple));
            },
            None => {
                let mut msg = String::from_str("Could not find matching outputs for stride ");
                msg.append(decimal_string(stride as u64).as_str());
                return Err(AppError::BadRequest(msg));
            },
        }
        i += 1;
    }

    if stride_output_mapping.len() == 0 {
        return Err(
            AppError::BadRequest(String::from_str("No valid output mappings found for any stride")),
        );
    }

    Ok(stride_output_mapping)
}

} // verus!
