//! The detection pipeline's compute core.
//!
//! The service decodes the uploaded image, runs the detector session and
//! hands the raw per-stride tensors here; this stage turns them into the
//! final set of candidate faces in model-input space: anchor decoding
//! followed by non-maximum suppression at the fixed threshold.

use vstd::prelude::*;
use crate::decode::{all_proposals, decode_proposals, StrideOutputs};
use crate::faces::DetectedFace;
use crate::nms::{all_coords_bounded, nms_spec, non_maximum_suppression, NMS_THRESHOLD};
use crate::resolver::MAX_TARGET_DIM;

verus! {

/// Decodes every stride's raw tensors and suppresses overlapping
/// candidates: the detection set the detector run amounts to, highest
/// score first.
pub fn detect_from_outputs(
    outputs: &Vec<StrideOutputs>,
    img_width: u32,
    img_height: u32,
    conf_threshold: i64,
) -> (r: Vec<DetectedFace>)
    requires
        forall|i: int| 0 <= i < outputs@.len() ==> (#[trigger] outputs@[i]).wf(),
        0 < img_width <= MAX_TARGET_DIM,
        0 < img_height <= MAX_TARGET_DIM,
    ensures
        r@ == nms_spec(
            all_proposals(outputs@, img_width as int, img_height as int, conf_threshold as int),
            NMS_THRESHOLD as int,
        ),
        all_coords_bounded(r@),
{
    let proposals = decode_proposals(outputs, img_width, img_height, conf_threshold);
    non_maximum_suppression(&proposals, NMS_THRESHOLD)
}

} // verus!
