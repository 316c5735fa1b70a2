//! End-to-end behavior of the decode, suppression and embedding stages.

use recognizr::decode::{decode_proposals, StrideOutputs, DEFAULT_CONF_THRESHOLD};
use recognizr::embedding::{isqrt, l2_normalize};
use recognizr::faces::DetectedFace;
use recognizr::fixed::{round_div, FP_ONE};
use recognizr::nms::{calculate_iou, non_maximum_suppression, NMS_THRESHOLD};

fn face(bbox: [i64; 4], score: i64) -> DetectedFace {
    DetectedFace { bbox, kps: [0; 10], score }
}

#[test]
fn default_confidence_threshold_is_seven_tenths() {
    assert_eq!(DEFAULT_CONF_THRESHOLD, 700);
    assert_eq!(NMS_THRESHOLD, 400);
}

#[test]
fn two_by_two_grid_yields_two_candidates() {
    // A 2x2 score grid [[0.9, 0.2], [0.1, 0.95]] at stride 8 on a 16x16
    // target, threshold 0.5: exactly the two scores above 0.5 survive.
    let outputs = vec![StrideOutputs {
        stride: 8,
        scores: vec![900, 200, 100, 950],
        boxes: vec![0; 16],
        kps: vec![0; 40],
    }];
    let proposals = decode_proposals(&outputs, 16, 16, 500);
    assert_eq!(proposals.len(), 2);
    assert_eq!(proposals[0].score, 900);
    assert_eq!(proposals[1].score, 950);
    // Anchor centers: cell (0, 0) is (4.0, 4.0); the fourth flat index is
    // cell (1, 0) anchor 1, so its center is (12.0, 4.0).
    assert_eq!(proposals[0].bbox, [4000, 4000, 4000, 4000]);
    assert_eq!(proposals[1].bbox, [12000, 4000, 12000, 4000]);
}

#[test]
fn decode_applies_box_and_keypoint_regressions() {
    // One anchor at stride 8 with box distances (l, t, r, b) = (1, 2, 3, 4)
    // strides and a first keypoint offset of (0.5, -0.5) strides.
    let mut kps = vec![0; 10];
    kps[0] = 500;
    kps[1] = -500;
    let outputs = vec![StrideOutputs {
        stride: 8,
        scores: vec![800],
        boxes: vec![1000, 2000, 3000, 4000],
        kps,
    }];
    let proposals = decode_proposals(&outputs, 8, 8, 700);
    assert_eq!(proposals.len(), 1);
    let f = &proposals[0];
    // center (4.0, 4.0); distances scale by the stride.
    assert_eq!(f.bbox, [4000 - 8000, 4000 - 16000, 4000 + 24000, 4000 + 32000]);
    assert_eq!(f.kps[0], 4000 + 500 * 8);
    assert_eq!(f.kps[1], 4000 - 500 * 8);
}

#[test]
fn decode_short_keypoint_tensor_keeps_detection_with_zero_keypoints() {
    let outputs = vec![StrideOutputs {
        stride: 8,
        scores: vec![800],
        boxes: vec![0, 0, 0, 0],
        kps: vec![],
    }];
    let proposals = decode_proposals(&outputs, 8, 8, 700);
    assert_eq!(proposals.len(), 1);
    assert_eq!(proposals[0].kps, [0; 10]);
}

#[test]
fn decode_skips_indices_beyond_score_tensor() {
    // The nominal 16x16 grid at stride 8 has 8 anchors, but the tensor
    // only carries one: the rest are skipped, not read out of bounds.
    let outputs = vec![StrideOutputs {
        stride: 8,
        scores: vec![999],
        boxes: vec![0, 0, 0, 0],
        kps: vec![0; 10],
    }];
    let proposals = decode_proposals(&outputs, 16, 16, 500);
    assert_eq!(proposals.len(), 1);
}

#[test]
fn iou_of_overlapping_boxes_suppresses_lower_score() {
    // [10,10,50,50] vs [12,12,52,52]: overlap 38x38 = 1444 over a union
    // of 1756, an IoU of about 0.82, beyond the 0.4 threshold.
    let a = [10000, 10000, 50000, 50000];
    let b = [12000, 12000, 52000, 52000];
    let iou = calculate_iou(&a, &b);
    assert_eq!(iou, 822);

    let proposals = vec![face(a, 900), face(b, 800)];
    let kept = non_maximum_suppression(&proposals, 400);
    assert_eq!(kept.len(), 1);
    assert_eq!(kept[0].score, 900);
    assert_eq!(kept[0].bbox, a);
}

#[test]
fn iou_below_threshold_keeps_both() {
    let a = [0, 0, 10000, 10000];
    let b = [8000, 8000, 18000, 18000];
    // overlap 2x2 = 4 over union 196: IoU about 0.02.
    assert_eq!(calculate_iou(&a, &b), 20);
    let proposals = vec![face(a, 500), face(b, 900)];
    let kept = non_maximum_suppression(&proposals, 400);
    assert_eq!(kept.len(), 2);
    // Sorted by descending score.
    assert_eq!(kept[0].score, 900);
    assert_eq!(kept[1].score, 500);
}

#[test]
fn iou_is_symmetric_one_on_self_zero_when_disjoint() {
    let a = [1000, 2000, 9000, 8000];
    let b = [3000, 1000, 12000, 7000];
    assert_eq!(calculate_iou(&a, &b), calculate_iou(&b, &a));
    assert_eq!(calculate_iou(&a, &a), FP_ONE);
    let far = [100000, 100000, 110000, 110000];
    assert_eq!(calculate_iou(&a, &far), 0);
}

#[test]
fn nms_is_idempotent() {
    let proposals = vec![
        face([10000, 10000, 50000, 50000], 900),
        face([12000, 12000, 52000, 52000], 800),
        face([100000, 100000, 140000, 140000], 700),
        face([101000, 101000, 141000, 141000], 950),
        face([200000, 200000, 220000, 220000], 600),
    ];
    let once = non_maximum_suppression(&proposals, NMS_THRESHOLD);
    let twice = non_maximum_suppression(&once, NMS_THRESHOLD);
    assert_eq!(once.len(), twice.len());
    for (x, y) in once.iter().zip(twice.iter()) {
        assert_eq!(x, y);
    }
}

#[test]
fn nms_breaks_score_ties_by_insertion_order() {
    let a = face([0, 0, 10000, 10000], 700);
    let b = face([500000, 0, 510000, 10000], 700);
    let kept = non_maximum_suppression(&vec![a, b], 400);
    assert_eq!(kept.len(), 2);
    assert_eq!(kept[0].bbox, a.bbox);
    assert_eq!(kept[1].bbox, b.bbox);
}

#[test]
fn nms_on_empty_input_is_empty() {
    let kept = non_maximum_suppression(&Vec::new(), 400);
    assert!(kept.is_empty());
}

#[test]
fn isqrt_exact_and_floor_cases() {
    assert_eq!(isqrt(0), 0);
    assert_eq!(isqrt(1), 1);
    assert_eq!(isqrt(24), 4);
    assert_eq!(isqrt(25), 5);
    assert_eq!(isqrt(26), 5);
    assert_eq!(isqrt(25_000_000), 5000);
}

#[test]
fn l2_normalize_unit_result() {
    // (3, 4) has norm 5; the unit vector is (0.6, 0.8).
    let v = vec![3000, 4000];
    let n = l2_normalize(&v);
    assert_eq!(n, vec![600, 800]);
    // Euclidean norm of the result is exactly one here.
    assert_eq!(n[0] * n[0] + n[1] * n[1], FP_ONE * FP_ONE);
}

#[test]
fn l2_normalize_zero_vector_unchanged() {
    let v = vec![0, 0, 0, 0];
    let n = l2_normalize(&v);
    assert_eq!(n, v);
}

#[test]
fn l2_normalize_near_unit_norm() {
    // An arbitrary vector normalizes to squared norm within a tenth of a
    // percent of one.
    let v = vec![123000, -456000, 789000, 17000];
    let n = l2_normalize(&v);
    let sq: i64 = n.iter().map(|c| c * c).sum();
    assert!((sq - FP_ONE * FP_ONE).abs() < 2000);
}

#[test]
fn round_div_rounds_to_nearest_ties_away_from_zero() {
    assert_eq!(round_div(7, 2), 4);
    assert_eq!(round_div(-7, 2), -4);
    assert_eq!(round_div(6, 4), 2);
    assert_eq!(round_div(5, 10), 1);
    assert_eq!(round_div(4, 10), 0);
    assert_eq!(round_div(-5, 10), -1);
}

#[test]
fn detect_from_outputs_decodes_then_suppresses() {
    // Two anchors of the same cell predict near-identical boxes; only
    // the higher-scoring one survives suppression.
    let outputs = vec![recognizr::decode::StrideOutputs {
        stride: 8,
        scores: vec![800, 900],
        boxes: vec![1000, 1000, 1000, 1000, 1100, 1100, 1100, 1100],
        kps: vec![0; 20],
    }];
    let kept = recognizr::pipeline::detect_from_outputs(&outputs, 8, 8, 500);
    assert_eq!(kept.len(), 1);
    assert_eq!(kept[0].score, 900);
}

#[test]
fn nms_keeps_higher_score_whichever_comes_first() {
    let a = face([10000, 10000, 50000, 50000], 950);
    let b = face([12000, 12000, 52000, 52000], 800);
    let kept = non_maximum_suppression(&vec![b, a], 400);
    assert_eq!(kept.len(), 1);
    assert_eq!(kept[0].score, 950);
}
