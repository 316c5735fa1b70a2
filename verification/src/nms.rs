//! Non-maximum suppression over candidate detections.
//!
//! Candidates are ordered by descending confidence (stable, so ties keep
//! their insertion order); the highest-scoring survivor suppresses every
//! remaining candidate whose intersection-over-union with it exceeds the
//! threshold. The same input always yields the same output.
//!
//! IoU comparisons are exact: `iou > t` is decided as
//! `intersection * FP_ONE > t * union` over integers, never through a
//! rounded quotient.

use vstd::prelude::*;
use crate::faces::{COORD_LIMIT, DetectedFace};
use crate::fixed::FP_ONE;

verus! {

/// Default IoU threshold of the suppressor, in fixed-point thousandths.
pub const NMS_THRESHOLD: i64 = 400;

/// Width of the intersection of two corner-form boxes, clamped at zero.
pub open spec fn inter_width(a: Seq<i64>, b: Seq<i64>) -> int {
    vstd::math::max(
        vstd::math::min(a[2] as int, b[2] as int) - vstd::math::max(a[0] as int, b[0] as int),
        0,
    )
}

/// Height of the intersection of two corner-form boxes, clamped at zero.
pub open spec fn inter_height(a: Seq<i64>, b: Seq<i64>) -> int {
    vstd::math::max(
        vstd::math::min(a[3] as int, b[3] as int) - vstd::math::max(a[1] as int, b[1] as int),
        0,
    )
}

/// Intersection area of two corner-form boxes.
pub open spec fn intersection_area(a: Seq<i64>, b: Seq<i64>) -> int {
    inter_width(a, b) * inter_height(a, b)
}

/// Signed area of a corner-form box.
pub open spec fn box_area(a: Seq<i64>) -> int {
    (a[2] - a[0]) * (a[3] - a[1])
}

/// Union area of two corner-form boxes.
pub open spec fn union_area(a: Seq<i64>, b: Seq<i64>) -> int {
    box_area(a) + box_area(b) - intersection_area(a, b)
}

/// The IoU scaled to fixed-point thousandths and rounded down; zero when
/// the union is degenerate (never a division by zero).
pub open spec fn iou_scaled_spec(a: Seq<i64>, b: Seq<i64>) -> int {
    if union_area(a, b) <= 0 {
        0
    } else {
        intersection_area(a, b) * FP_ONE / union_area(a, b)
    }
}

/// Whether box `b` overlaps box `a` strictly beyond the threshold `thr`
/// (fixed-point thousandths): the exact comparison `iou > thr / FP_ONE`.
pub open spec fn overlaps_beyond(a: Seq<i64>, b: Seq<i64>, thr: int) -> bool {
    if union_area(a, b) <= 0 {
        0 > thr
    } else {
        intersection_area(a, b) * FP_ONE > thr * union_area(a, b)
    }
}

/// A corner-form box with coordinates in range and corners in order.
pub open spec fn proper_box(a: Seq<i64>) -> bool {
    &&& a.len() == 4
    &&& forall|i: int| 0 <= i < 4 ==> -COORD_LIMIT < #[trigger] a[i] < COORD_LIMIT
    &&& a[0] <= a[2]
    &&& a[1] <= a[3]
}

/// For proper boxes the intersection is no larger than either area, and
/// hence no larger than the union.
pub proof fn lemma_intersection_bounds(a: Seq<i64>, b: Seq<i64>)
    requires
        proper_box(a),
        proper_box(b),
    ensures
        0 <= intersection_area(a, b),
        intersection_area(a, b) <= box_area(a),
        intersection_area(a, b) <= box_area(b),
        intersection_area(a, b) <= union_area(a, b),
{
    let iw = inter_width(a, b);
    let ih = inter_height(a, b);
    assert(0 <= iw <= a[2] - a[0] && 0 <= iw <= b[2] - b[0]);
    assert(0 <= ih <= a[3] - a[1] && 0 <= ih <= b[3] - b[1]);
    assert(0 <= iw * ih) by (nonlinear_arith)
        requires
            iw >= 0,
            ih >= 0,
    ;
    assert(iw * ih <= (a[2] - a[0]) * (a[3] - a[1])) by (nonlinear_arith)
        requires
            0 <= iw <= a[2] - a[0],
            0 <= ih <= a[3] - a[1],
    ;
    assert(iw * ih <= (b[2] - b[0]) * (b[3] - b[1])) by (nonlinear_arith)
        requires
            0 <= iw <= b[2] - b[0],
            0 <= ih <= b[3] - b[1],
    ;
}

/// Intersection over union of two proper boxes, scaled to thousandths
/// and rounded down; `0` when the union is degenerate.
pub fn calculate_iou(box_a: &[i64; 4], box_b: &[i64; 4]) -> (r: i64)
    requires
        proper_box(box_a@),
        proper_box(box_b@),
    ensures
        r == iou_scaled_spec(box_a@, box_b@),
        0 <= r <= FP_ONE,
{
    let ix1 = if box_a[0] > box_b[0] {
        box_a[0]
    } else {
        box_b[0]
    };
    let iy1 = if box_a[1] > box_b[1] {
        box_a[1]
    } else {
        box_b[1]
    };
    let ix2 = if box_a[2] < box_b[2] {
        box_a[2]
    } else {
        box_b[2]
    };
    let iy2 = if box_a[3] < box_b[3] {
        box_a[3]
    } else {
        box_b[3]
    };

    let i_width: i128 = if ix2 > ix1 {
        (ix2 - ix1) as i128
    } else {
        0
    };
    let i_height: i128 = if iy2 > iy1 {
        (iy2 - iy1) as i128
    } else {
        0
    };
    proof {
        lemma_intersection_bounds(box_a@, box_b@);
        assert(0 <= i_width * i_height <= 0x400_0000_0000int * 0x400_0000_0000int)
            by (nonlinear_arith)
            requires
                0 <= i_width <= 0x400_0000_0000int,
                0 <= i_height <= 0x400_0000_0000int,
        ;
    }
    let intersection: i128 = i_width * i_height;

    let dxa = box_a[2] - box_a[0];
    let dya = box_a[3] - box_a[1];
    let dxb = box_b[2] - box_b[0];
    let dyb = box_b[3] - box_b[1];
    proof {
        assert(0 <= dxa as int * dya as int <= 0x400_0000_0000int * 0x400_0000_0000int)
            by (nonlinear_arith)
            requires
                0 <= dxa as int <= 0x400_0000_0000int,
                0 <= dya as int <= 0x400_0000_0000int,
        ;
        assert(0 <= dxb as int * dyb as int <= 0x400_0000_0000int * 0x400_0000_0000int)
            by (nonlinear_arith)
            requires
                0 <= dxb as int <= 0x400_0000_0000int,
                0 <= dyb as int <= 0x400_0000_0000int,
        ;
    }
    let area_a: i128 = (dxa as i128) * (dya as i128);
    let area_b: i128 = (dxb as i128) * (dyb as i128);
    let joint: i128 = area_a + area_b - intersection;
    if joint <= 0 {
        0
    } else {
        let scaled: i128 = intersection * (FP_ONE as i128);
        let q: i128 = scaled / joint;
        proof {
            vstd::arithmetic::div_mod::lemma_div_pos_is_pos(scaled as int, joint as int);
            assert(intersection * (FP_ONE as int) <= joint * (FP_ONE as int)) by (nonlinear_arith)
                requires
                    0 <= intersection <= joint,
                    FP_ONE > 0,
            ;
            vstd::arithmetic::div_mod::lemma_div_is_ordered(
                scaled as int,
                joint as int * FP_ONE as int,
                joint as int,
            );
            vstd::arithmetic::div_mod::lemma_div_multiples_vanish(
                FP_ONE as int,
                joint as int,
            );
        }
        q as i64
    }
}

/// Bound on accepted IoU thresholds (a thousand units on either side).
pub const THRESHOLD_LIMIT: i64 = 1_000_000;

/// Whether the detections are ordered by non-increasing score.
pub open spec fn sorted_by_score_desc(s: Seq<DetectedFace>) -> bool {
    forall|i: int, j: int| 0 <= i < j < s.len() ==> s[i].score >= s[j].score
}

/// Every detection in the sequence has coordinates in range.
pub open spec fn all_coords_bounded(s: Seq<DetectedFace>) -> bool {
    forall|i: int| 0 <= i < s.len() ==> (#[trigger] s[i]).coords_bounded()
}

/// Stable descending insertion: `f` goes after every detection scoring at
/// least `f.score`.
pub open spec fn insert_desc(s: Seq<DetectedFace>, f: DetectedFace) -> Seq<DetectedFace>
    decreases s.len(),
{
    if s.len() == 0 {
        seq![f]
    } else if s[0].score >= f.score {
        seq![s[0]] + insert_desc(s.drop_first(), f)
    } else {
        seq![f] + s
    }
}

/// Stable sort by descending score: ties keep their input order.
pub open spec fn sort_by_score_desc_spec(s: Seq<DetectedFace>) -> Seq<DetectedFace>
    decreases s.len(),
{
    if s.len() == 0 {
        Seq::empty()
    } else {
        insert_desc(sort_by_score_desc_spec(s.drop_last()), s.last())
    }
}

/// The survivors of one suppression round led by `head`: the detections
/// `head` does not overlap beyond the threshold.
pub open spec fn keeps(head: DetectedFace, thr: int) -> spec_fn(DetectedFace) -> bool {
    |f: DetectedFace| !overlaps_beyond(head.bbox@, f.bbox@, thr)
}

/// Greedy suppression over a score-ordered candidate list: keep the head,
/// drop every remaining candidate it overlaps beyond the threshold,
/// repeat on the survivors.
pub open spec fn greedy_keep(s: Seq<DetectedFace>, thr: int) -> Seq<DetectedFace>
    decreases s.len(),
    via greedy_keep_decreases
{
    if s.len() == 0 {
        Seq::empty()
    } else {
        seq![s[0]] + greedy_keep(s.drop_first().filter(keeps(s[0], thr)), thr)
    }
}

#[via_fn]
proof fn greedy_keep_decreases(s: Seq<DetectedFace>, thr: int) {
    if s.len() > 0 {
        s.drop_first().lemma_filter_len(keeps(s[0], thr));
    }
}

/// The suppressor's full specification: stable sort by descending score,
/// then greedy suppression.
pub open spec fn nms_spec(s: Seq<DetectedFace>, thr: int) -> Seq<DetectedFace> {
    greedy_keep(sort_by_score_desc_spec(s), thr)
}

/// Decides `overlaps_beyond` exactly over wide integers.
fn suppresses_exec(a: &DetectedFace, b: &DetectedFace, thr: i64) -> (r: bool)
    requires
        a.coords_bounded(),
        b.coords_bounded(),
        -THRESHOLD_LIMIT <= thr <= THRESHOLD_LIMIT,
    ensures
        r == overlaps_beyond(a.bbox@, b.bbox@, thr as int),
{
    let ix1 = if a.bbox[0] > b.bbox[0] {
        a.bbox[0]
    } else {
        b.bbox[0]
    };
    let iy1 = if a.bbox[1] > b.bbox[1] {
        a.bbox[1]
    } else {
        b.bbox[1]
    };
    let ix2 = if a.bbox[2] < b.bbox[2] {
        a.bbox[2]
    } else {
        b.bbox[2]
    };
    let iy2 = if a.bbox[3] < b.bbox[3] {
        a.bbox[3]
    } else {
        b.bbox[3]
    };
    let i_width: i128 = if ix2 > ix1 {
        (ix2 - ix1) as i128
    } else {
        0
    };
    let i_height: i128 = if iy2 > iy1 {
        (iy2 - iy1) as i128
    } else {
        0
    };
    proof {
        assert(0 <= i_width * i_height <= 0x400_0000_0000int * 0x400_0000_0000int)
            by (nonlinear_arith)
            requires
                0 <= i_width <= 0x400_0000_0000int,
                0 <= i_height <= 0x400_0000_0000int,
        ;
    }
    let intersection: i128 = i_width * i_height;

    let dxa = a.bbox[2] - a.bbox[0];
    let dya = a.bbox[3] - a.bbox[1];
    let dxb = b.bbox[2] - b.bbox[0];
    let dyb = b.bbox[3] - b.bbox[1];
    proof {
        assert(-(0x400_0000_0000int * 0x400_0000_0000int) <= dxa as int * dya as int
            <= 0x400_0000_0000int * 0x400_0000_0000int) by (nonlinear_arith)
            requires
                -0x400_0000_0000int <= dxa as int <= 0x400_0000_0000int,
                -0x400_0000_0000int <= dya as int <= 0x400_0000_0000int,
        ;
        assert(-(0x400_0000_0000int * 0x400_0000_0000int) <= dxb as int * dyb as int
            <= 0x400_0000_0000int * 0x400_0000_0000int) by (nonlinear_arith)
            requires
                -0x400_0000_0000int <= dxb as int <= 0x400_0000_0000int,
                -0x400_0000_0000int <= dyb as int <= 0x400_0000_0000int,
        ;
    }
    let area_a: i128 = (dxa as i128) * (dya as i128);
    let area_b: i128 = (dxb as i128) * (dyb as i128);
    let joint: i128 = area_a + area_b - intersection;

    if joint <= 0 {
        0 > thr
    } else {
        proof {
            let m2 = 0x400_0000_0000int * 0x400_0000_0000int;
            assert(-(1_000_000int * 3 * m2) <= thr as int * joint as int <= 1_000_000int * 3 * m2)
                by (nonlinear_arith)
                requires
                    m2 == 0x400_0000_0000int * 0x400_0000_0000int,
                    -1_000_000 <= thr as int <= 1_000_000,
                    -3 * m2 <= joint as int <= 3 * m2,
            ;
            assert(0 <= intersection as int * 1000 <= m2 * 1000) by (nonlinear_arith)
                requires
                    m2 == 0x400_0000_0000int * 0x400_0000_0000int,
                    0 <= intersection as int <= m2,
            ;
        }
        intersection * (FP_ONE as i128) > (thr as i128) * joint
    }
}

/// Where the stable insertion lands: just before the first element that
/// scores strictly less than `f`.
proof fn lemma_insert_desc_at(s: Seq<DetectedFace>, f: DetectedFace, j: int)
    requires
        0 <= j <= s.len(),
        forall|k: int| 0 <= k < j ==> s[k].score >= f.score,
        j < s.len() ==> s[j].score < f.score,
    ensures
        insert_desc(s, f) == s.subrange(0, j) + seq![f] + s.subrange(j, s.len() as int),
    decreases s.len(),
{
    if s.len() == 0 {
        assert(insert_desc(s, f) =~= s.subrange(0, j) + seq![f] + s.subrange(j, s.len() as int));
    } else if s[0].score >= f.score {
        assert(j >= 1);
        let rest = s.drop_first();
        lemma_insert_desc_at(rest, f, j - 1);
        assert(seq![s[0]] + (rest.subrange(0, j - 1) + seq![f] + rest.subrange(
            j - 1,
            rest.len() as int,
        )) =~= s.subrange(0, j) + seq![f] + s.subrange(j, s.len() as int));
    } else {
        assert(j == 0);
        assert(seq![f] + s =~= s.subrange(0, 0) + seq![f] + s.subrange(0, s.len() as int));
    }
}

/// Stable insertion keeps every element in range.
proof fn lemma_insert_desc_bounded(s: Seq<DetectedFace>, f: DetectedFace)
    requires
        all_coords_bounded(s),
        f.coords_bounded(),
    ensures
        all_coords_bounded(insert_desc(s, f)),
    decreases s.len(),
{
    if s.len() == 0 {
    } else if s[0].score >= f.score {
        lemma_insert_desc_bounded(s.drop_first(), f);
        let out = seq![s[0]] + insert_desc(s.drop_first(), f);
        assert forall|i: int| 0 <= i < out.len() implies (#[trigger] out[i]).coords_bounded() by {
            if i > 0 {
                assert(out[i] == insert_desc(s.drop_first(), f)[i - 1]);
            }
        }
    } else {
        let out = seq![f] + s;
        assert forall|i: int| 0 <= i < out.len() implies (#[trigger] out[i]).coords_bounded() by {
            if i > 0 {
                assert(out[i] == s[i - 1]);
            }
        }
    }
}

/// Sorting keeps every element in range.
proof fn lemma_sort_bounded(s: Seq<DetectedFace>)
    requires
        all_coords_bounded(s),
    ensures
        all_coords_bounded(sort_by_score_desc_spec(s)),
    decreases s.len(),
{
    if s.len() > 0 {
        assert(all_coords_bounded(s.drop_last()));
        lemma_sort_bounded(s.drop_last());
        lemma_insert_desc_bounded(sort_by_score_desc_spec(s.drop_last()), s.last());
    }
}

/// Inserts a detection into a score-descending vector, stably.
fn insert_by_score(sorted: &mut Vec<DetectedFace>, f: DetectedFace)
    ensures
        final(sorted)@ == insert_desc(old(sorted)@, f),
{
    let mut j: usize = 0;
    while j < sorted.len() && sorted[j].score >= f.score
        invariant
            0 <= j <= sorted@.len(),
            sorted@ == old(sorted)@,
            forall|k: int| 0 <= k < j ==> sorted@[k].score >= f.score,
        decreases sorted@.len() - j,
    {
        j += 1;
    }
    proof {
        lemma_insert_desc_at(sorted@, f, j as int);
    }
    sorted.insert(j, f);
    proof {
        assert(sorted@ =~= old(sorted)@.subrange(0, j as int) + seq![f] + old(sorted)@.subrange(
            j as int,
            old(sorted)@.len() as int,
        ));
    }
}

/// Stable sort of the proposals by descending score.
fn sort_faces_by_score(proposals: &Vec<DetectedFace>) -> (r: Vec<DetectedFace>)
    ensures
        r@ == sort_by_score_desc_spec(proposals@),
{
    let mut sorted: Vec<DetectedFace> = Vec::new();
    let mut i: usize = 0;
    while i < proposals.len()
        invariant
            0 <= i <= proposals@.len(),
            sorted@ == sort_by_score_desc_spec(proposals@.subrange(0, i as int)),
        decreases proposals@.len() - i,
    {
        insert_by_score(&mut sorted, proposals[i]);
        proof {
            let cur = proposals@.subrange(0, i + 1 as int);
            assert(cur.drop_last() =~= proposals@.subrange(0, i as int));
            assert(cur.last() == proposals@[i as int]);
        }
        i += 1;
    }
    proof {
        assert(proposals@.subrange(0, proposals@.len() as int) =~= proposals@);
    }
    sorted
}

/// Applies non-maximum suppression: stable sort by descending score, then
/// greedy suppression of every candidate whose IoU with an already kept
/// detection exceeds the threshold. A pure function of its inputs.
pub fn non_maximum_suppression(proposals: &Vec<DetectedFace>, iou_threshold: i64) -> (r: Vec<
    DetectedFace,
>)
    requires
        all_coords_bounded(proposals@),
        -THRESHOLD_LIMIT <= iou_threshold <= THRESHOLD_LIMIT,
    ensures
        r@ == nms_spec(proposals@, iou_threshold as int),
        all_coords_bounded(r@),
{
    let mut remaining = sort_faces_by_score(proposals);
    proof {
        lemma_sort_bounded(proposals@);
    }
    let ghost sorted0 = remaining@;
    let mut kept: Vec<DetectedFace> = Vec::new();

    while remaining.len() > 0
        invariant
            kept@ + greedy_keep(remaining@, iou_threshold as int) == greedy_keep(
                sorted0,
                iou_threshold as int,
            ),
            all_coords_bounded(remaining@),
            all_coords_bounded(kept@),
            -THRESHOLD_LIMIT <= iou_threshold <= THRESHOLD_LIMIT,
        decreases remaining@.len(),
    {
        let head = remaining[0];
        let ghost pred = keeps(head, iou_threshold as int);
        let mut next: Vec<DetectedFace> = Vec::new();
        let mut j: usize = 1;
        while j < remaining.len()
            invariant
                1 <= j <= remaining@.len(),
                remaining@.len() > 0,
                head == remaining@[0],
                all_coords_bounded(remaining@),
                -THRESHOLD_LIMIT <= iou_threshold <= THRESHOLD_LIMIT,
                pred == keeps(head, iou_threshold as int),
                next@ == remaining@.subrange(1, j as int).filter(pred),
                all_coords_bounded(next@),
            decreases remaining@.len() - j,
        {
            let f = remaining[j];
            let suppressed = suppresses_exec(&head, &f, iou_threshold);
            proof {
                let pre = remaining@.subrange(1, j as int);
                let cur = remaining@.subrange(1, j + 1 as int);
                assert(cur =~= pre.push(remaining@[j as int]));
                pre.lemma_filter_push(remaining@[j as int], pred);
            }
            if !suppressed {
                next.push(f);
            }
            j += 1;
        }
        proof {
            assert(remaining@.subrange(1, remaining@.len() as int) =~= remaining@.drop_first());
            assert(greedy_keep(remaining@, iou_threshold as int) == seq![head] + greedy_keep(
                next@,
                iou_threshold as int,
            ));
        }
        kept.push(head);
        proof {
            assert(kept@ + greedy_keep(next@, iou_threshold as int) =~= (kept@.drop_last()
                + greedy_keep(remaining@, iou_threshold as int)));
        }
        remaining = next;
    }
    proof {
        assert(kept@ + greedy_keep(remaining@, iou_threshold as int) =~= kept@);
    }
    kept
}


/// No two survivors of a suppression overlap beyond the threshold.
pub open spec fn pairwise_clean(s: Seq<DetectedFace>, thr: int) -> bool {
    forall|i: int, j: int|
        0 <= i < j < s.len() ==> !overlaps_beyond(
            #[trigger] s[i].bbox@,
            #[trigger] s[j].bbox@,
            thr,
        )
}

/// Membership in a cons cell: an element of `seq![h] + rest` is `h` or an
/// element of `rest`.
proof fn lemma_cons_contains(h: DetectedFace, rest: Seq<DetectedFace>, x: DetectedFace)
    ensures
        (seq![h] + rest).contains(x) <==> (x == h || rest.contains(x)),
{
    let out = seq![h] + rest;
    if out.contains(x) {
        let idx = out.lemma_contains_to_index(x);
        if idx > 0 {
            assert(rest[idx - 1] == x);
            rest.lemma_index_contains(idx - 1);
        }
    }
    if x == h {
        assert(out[0] == x);
        out.lemma_index_contains(0);
    }
    if rest.contains(x) {
        let idx = rest.lemma_contains_to_index(x);
        assert(out[idx + 1] == x);
        out.lemma_index_contains(idx + 1);
    }
}

/// Stable insertion adds exactly one element.
proof fn lemma_insert_desc_elems(s: Seq<DetectedFace>, f: DetectedFace, x: DetectedFace)
    ensures
        insert_desc(s, f).contains(x) <==> (s.contains(x) || x == f),
    decreases s.len(),
{
    if s.len() == 0 {
        lemma_cons_contains(f, s, x);
        assert(seq![f] + s =~= insert_desc(s, f));
    } else if s[0].score >= f.score {
        lemma_insert_desc_elems(s.drop_first(), f, x);
        lemma_cons_contains(s[0], insert_desc(s.drop_first(), f), x);
        lemma_cons_contains(s[0], s.drop_first(), x);
        assert(seq![s[0]] + s.drop_first() =~= s);
    } else {
        lemma_cons_contains(f, s, x);
    }
}

/// Stable insertion into a score-descending sequence stays descending.
proof fn lemma_insert_desc_sorted(s: Seq<DetectedFace>, f: DetectedFace)
    requires
        sorted_by_score_desc(s),
    ensures
        sorted_by_score_desc(insert_desc(s, f)),
    decreases s.len(),
{
    if s.len() == 0 {
    } else if s[0].score >= f.score {
        let rest = s.drop_first();
        assert(sorted_by_score_desc(rest)) by {
            assert(forall|i: int, j: int|
                0 <= i < j < rest.len() ==> rest[i] == s[i + 1] && rest[j] == s[j + 1]);
        }
        lemma_insert_desc_sorted(rest, f);
        let tail = insert_desc(rest, f);
        let out = seq![s[0]] + tail;
        assert forall|i: int, j: int| 0 <= i < j < out.len() implies out[i].score
            >= out[j].score by {
            if i == 0 {
                assert(out[j] == tail[j - 1]);
                tail.lemma_index_contains(j - 1);
                lemma_insert_desc_elems(rest, f, tail[j - 1]);
                if rest.contains(tail[j - 1]) {
                    let k = rest.lemma_contains_to_index(tail[j - 1]);
                    assert(rest[k] == s[k + 1]);
                }
            } else {
                assert(out[i] == tail[i - 1] && out[j] == tail[j - 1]);
            }
        }
    } else {
        let out = seq![f] + s;
        assert forall|i: int, j: int| 0 <= i < j < out.len() implies out[i].score
            >= out[j].score by {
            if i == 0 {
                assert(out[j] == s[j - 1]);
                if j >= 2 {
                    assert(s[0].score >= s[j - 1].score);
                }
            } else {
                assert(out[i] == s[i - 1] && out[j] == s[j - 1]);
            }
        }
    }
}

/// The sort specification produces a score-descending sequence.
pub proof fn lemma_sort_spec_sorted(s: Seq<DetectedFace>)
    ensures
        sorted_by_score_desc(sort_by_score_desc_spec(s)),
    decreases s.len(),
{
    if s.len() > 0 {
        lemma_sort_spec_sorted(s.drop_last());
        lemma_insert_desc_sorted(sort_by_score_desc_spec(s.drop_last()), s.last());
    }
}

/// Sorting neither adds nor removes elements.
pub proof fn lemma_sort_spec_elems(s: Seq<DetectedFace>, x: DetectedFace)
    ensures
        sort_by_score_desc_spec(s).contains(x) <==> s.contains(x),
    decreases s.len(),
{
    if s.len() == 0 {
    } else {
        let rest = s.drop_last();
        lemma_sort_spec_elems(rest, x);
        lemma_insert_desc_elems(sort_by_score_desc_spec(rest), s.last(), x);
        if s.contains(x) {
            let idx = s.lemma_contains_to_index(x);
            if idx < s.len() - 1 {
                assert(rest[idx] == x);
                rest.lemma_index_contains(idx);
            }
        }
        if rest.contains(x) {
            let idx = rest.lemma_contains_to_index(x);
            assert(s[idx] == x);
            s.lemma_index_contains(idx);
        }
        if x == s.last() {
            s.lemma_index_contains(s.len() - 1);
        }
    }
}

/// Sorting an already score-descending sequence changes nothing: the
/// stable sort keeps ties in input order.
pub proof fn lemma_sort_of_sorted(s: Seq<DetectedFace>)
    requires
        sorted_by_score_desc(s),
    ensures
        sort_by_score_desc_spec(s) == s,
    decreases s.len(),
{
    if s.len() > 0 {
        let rest = s.drop_last();
        assert(sorted_by_score_desc(rest)) by {
            assert(forall|i: int, j: int|
                0 <= i < j < rest.len() ==> rest[i] == s[i] && rest[j] == s[j]);
        }
        lemma_sort_of_sorted(rest);
        assert(forall|k: int| 0 <= k < rest.len() ==> #[trigger] rest[k].score >= s.last().score)
            by {
            assert(forall|k: int| 0 <= k < rest.len() ==> rest[k] == s[k]);
        }
        lemma_insert_desc_at(rest, s.last(), rest.len() as int);
        assert(rest.subrange(0, rest.len() as int) + seq![s.last()] + rest.subrange(
            rest.len() as int,
            rest.len() as int,
        ) =~= s);
    }
}

/// Whatever greedy suppression keeps was among its candidates.
pub proof fn lemma_greedy_subset(s: Seq<DetectedFace>, thr: int, x: DetectedFace)
    requires
        greedy_keep(s, thr).contains(x),
    ensures
        s.contains(x),
    decreases s.len(),
{
    if s.len() > 0 {
        let pred = keeps(s[0], thr);
        let rest = s.drop_first().filter(pred);
        lemma_cons_contains(s[0], greedy_keep(rest, thr), x);
        if x == s[0] {
            s.lemma_index_contains(0);
        } else {
            lemma_greedy_subset(rest, thr, x);
            s.drop_first().lemma_filter_contains_rev(pred, x);
            let idx = s.drop_first().lemma_contains_to_index(x);
            assert(s[idx + 1] == x);
            s.lemma_index_contains(idx + 1);
        }
    }
}

/// Filtering a score-descending sequence keeps it descending.
proof fn lemma_filter_sorted(s: Seq<DetectedFace>, pred: spec_fn(DetectedFace) -> bool)
    requires
        sorted_by_score_desc(s),
    ensures
        sorted_by_score_desc(s.filter(pred)),
    decreases s.len(),
{
    reveal(Seq::filter);
    if s.len() > 0 {
        let rest = s.drop_last();
        assert(sorted_by_score_desc(rest)) by {
            assert(forall|i: int, j: int|
                0 <= i < j < rest.len() ==> rest[i] == s[i] && rest[j] == s[j]);
        }
        lemma_filter_sorted(rest, pred);
        if pred(s.last()) {
            let out = rest.filter(pred).push(s.last());
            assert forall|i: int, j: int| 0 <= i < j < out.len() implies out[i].score
                >= out[j].score by {
                rest.filter(pred).lemma_index_contains(i);
                rest.lemma_filter_contains_rev(pred, out[i]);
                let k = rest.lemma_contains_to_index(out[i]);
                assert(rest[k] == s[k]);
                if j < out.len() - 1 {
                    rest.filter(pred).lemma_index_contains(j);
                    rest.lemma_filter_contains_rev(pred, out[j]);
                }
            }
        }
    }
}

/// Greedy suppression of a score-descending list is score-descending.
pub proof fn lemma_greedy_sorted(s: Seq<DetectedFace>, thr: int)
    requires
        sorted_by_score_desc(s),
    ensures
        sorted_by_score_desc(greedy_keep(s, thr)),
    decreases s.len(),
{
    if s.len() > 0 {
        let pred = keeps(s[0], thr);
        let rest = s.drop_first().filter(pred);
        assert(sorted_by_score_desc(s.drop_first())) by {
            assert(forall|i: int, j: int|
                0 <= i < j < s.drop_first().len() ==> s.drop_first()[i] == s[i + 1]
                    && s.drop_first()[j] == s[j + 1]);
        }
        lemma_filter_sorted(s.drop_first(), pred);
        lemma_greedy_sorted(rest, thr);
        let tail = greedy_keep(rest, thr);
        let out = seq![s[0]] + tail;
        assert forall|i: int, j: int| 0 <= i < j < out.len() implies out[i].score
            >= out[j].score by {
            if i == 0 {
                assert(out[j] == tail[j - 1]);
                tail.lemma_index_contains(j - 1);
                lemma_greedy_subset(rest, thr, tail[j - 1]);
                s.drop_first().lemma_filter_contains_rev(pred, tail[j - 1]);
                let k = s.drop_first().lemma_contains_to_index(tail[j - 1]);
                assert(s.drop_first()[k] == s[k + 1]);
            } else {
                assert(out[i] == tail[i - 1] && out[j] == tail[j - 1]);
            }
        }
    }
}

/// No survivor of greedy suppression overlaps another beyond the
/// threshold.
pub proof fn lemma_greedy_clean(s: Seq<DetectedFace>, thr: int)
    ensures
        pairwise_clean(greedy_keep(s, thr), thr),
    decreases s.len(),
{
    if s.len() > 0 {
        let pred = keeps(s[0], thr);
        let rest = s.drop_first().filter(pred);
        lemma_greedy_clean(rest, thr);
        let tail = greedy_keep(rest, thr);
        let out = seq![s[0]] + tail;
        assert forall|i: int, j: int| 0 <= i < j < out.len() implies !overlaps_beyond(
            out[i].bbox@,
            out[j].bbox@,
            thr,
        ) by {
            if i == 0 {
                assert(out[j] == tail[j - 1]);
                tail.lemma_index_contains(j - 1);
                lemma_greedy_subset(rest, thr, tail[j - 1]);
                let k = rest.lemma_contains_to_index(tail[j - 1]);
                s.drop_first().lemma_filter_pred(pred, k);
            } else {
                assert(out[i] == tail[i - 1] && out[j] == tail[j - 1]);
            }
        }
    }
}

/// Filtering removes nothing when every element satisfies the predicate.
proof fn lemma_filter_all(s: Seq<DetectedFace>, pred: spec_fn(DetectedFace) -> bool)
    requires
        forall|i: int| 0 <= i < s.len() ==> pred(#[trigger] s[i]),
    ensures
        s.filter(pred) == s,
    decreases s.len(),
{
    reveal(Seq::filter);
    if s.len() > 0 {
        let rest = s.drop_last();
        assert(forall|i: int| 0 <= i < rest.len() ==> pred(#[trigger] rest[i])) by {
            assert(forall|i: int| 0 <= i < rest.len() ==> rest[i] == s[i]);
        }
        lemma_filter_all(rest, pred);
        assert(rest.push(s.last()) =~= s);
    }
}

/// Greedy suppression keeps a pairwise-clean list unchanged.
pub proof fn lemma_greedy_of_clean(s: Seq<DetectedFace>, thr: int)
    requires
        pairwise_clean(s, thr),
    ensures
        greedy_keep(s, thr) == s,
    decreases s.len(),
{
    if s.len() > 0 {
        let pred = keeps(s[0], thr);
        let dropped = s.drop_first();
        assert(forall|i: int| 0 <= i < dropped.len() ==> pred(#[trigger] dropped[i])) by {
            assert(forall|i: int| 0 <= i < dropped.len() ==> dropped[i] == s[i + 1]);
        }
        lemma_filter_all(dropped, pred);
        assert(pairwise_clean(dropped, thr)) by {
            assert(forall|i: int, j: int|
                0 <= i < j < dropped.len() ==> dropped[i] == s[i + 1] && dropped[j] == s[j + 1]);
        }
        lemma_greedy_of_clean(dropped, thr);
        assert(seq![s[0]] + dropped =~= s);
    }
}

/// Suppression is idempotent: running the suppressor on its own output
/// returns that output unchanged.
pub proof fn lemma_nms_idempotent(s: Seq<DetectedFace>, thr: int)
    ensures
        nms_spec(nms_spec(s, thr), thr) == nms_spec(s, thr),
{
    let out = nms_spec(s, thr);
    lemma_sort_spec_sorted(s);
    lemma_greedy_sorted(sort_by_score_desc_spec(s), thr);
    lemma_greedy_clean(sort_by_score_desc_spec(s), thr);
    lemma_sort_of_sorted(out);
    lemma_greedy_of_clean(out, thr);
}

/// For two candidates in score order, exactly the overlap decides: if
/// their IoU exceeds the threshold only the higher-scoring one survives,
/// otherwise both do, in order.
pub proof fn lemma_nms_pair(a: DetectedFace, b: DetectedFace, thr: int)
    requires
        a.score >= b.score,
    ensures
        overlaps_beyond(a.bbox@, b.bbox@, thr) ==> nms_spec(seq![a, b], thr) == seq![a],
        !overlaps_beyond(a.bbox@, b.bbox@, thr) ==> nms_spec(seq![a, b], thr) == seq![a, b],
{
    let s = seq![a, b];
    assert(sorted_by_score_desc(s));
    lemma_sort_of_sorted(s);
    reveal_with_fuel(Seq::<DetectedFace>::filter, 3);
    reveal_with_fuel(greedy_keep, 3);
    let pred = keeps(a, thr);
    assert(s.drop_first() =~= seq![b]);
    assert(seq![b].drop_last() =~= Seq::<DetectedFace>::empty());
    if overlaps_beyond(a.bbox@, b.bbox@, thr) {
        assert(!pred(b));
        assert(seq![b].filter(pred) =~= Seq::<DetectedFace>::empty());
        assert(greedy_keep(s, thr) =~= seq![a]);
    } else {
        assert(pred(b));
        assert(seq![b].filter(pred) =~= seq![b]);
        assert(seq![b].drop_first() =~= Seq::<DetectedFace>::empty());
        assert(seq![b].drop_first().filter(keeps(b, thr)).len() == 0) by {
            seq![b].drop_first().lemma_filter_len(keeps(b, thr));
        }
        assert(greedy_keep(s, thr) =~= seq![a, b]);
    }
}

/// The same pair decision holds when the lower-scoring candidate comes
/// first: the stable sort moves the strictly higher-scoring one ahead,
/// and the overlap alone decides whether the other survives.
pub proof fn lemma_nms_pair_reversed(a: DetectedFace, b: DetectedFace, thr: int)
    requires
        a.score > b.score,
    ensures
        overlaps_beyond(a.bbox@, b.bbox@, thr) ==> nms_spec(seq![b, a], thr) == seq![a],
        !overlaps_beyond(a.bbox@, b.bbox@, thr) ==> nms_spec(seq![b, a], thr) == seq![a, b],
{
    reveal_with_fuel(sort_by_score_desc_spec, 3);
    reveal_with_fuel(insert_desc, 3);
    assert(seq![b, a].drop_last() =~= seq![b]);
    assert(seq![b].drop_last() =~= Seq::<DetectedFace>::empty());
    assert(sort_by_score_desc_spec(seq![b]) =~= seq![b]);
    assert(sort_by_score_desc_spec(seq![b, a]) =~= insert_desc(seq![b], a));
    assert(insert_desc(seq![b], a) =~= seq![a] + seq![b]);
    assert(sort_by_score_desc_spec(seq![b, a]) =~= seq![a, b]);
    assert(sorted_by_score_desc(seq![a, b]));
    lemma_sort_of_sorted(seq![a, b]);
    lemma_nms_pair(a, b, thr);
    assert(nms_spec(seq![b, a], thr) == greedy_keep(seq![a, b], thr));
    assert(nms_spec(seq![a, b], thr) == greedy_keep(seq![a, b], thr));
}

/// IoU is symmetric in its two boxes.
pub proof fn lemma_iou_symmetric(a: Seq<i64>, b: Seq<i64>)
    ensures
        iou_scaled_spec(a, b) == iou_scaled_spec(b, a),
{
    assert(inter_width(a, b) == inter_width(b, a));
    assert(inter_height(a, b) == inter_height(b, a));
}

/// A box with positive area has IoU exactly one with itself.
pub proof fn lemma_iou_self(a: Seq<i64>)
    requires
        a.len() == 4,
        a[0] < a[2],
        a[1] < a[3],
    ensures
        iou_scaled_spec(a, a) == FP_ONE,
{
    let ar = box_area(a);
    assert(ar > 0) by (nonlinear_arith)
        requires
            a[2] - a[0] > 0,
            a[3] - a[1] > 0,
            ar == (a[2] - a[0]) * (a[3] - a[1]),
    ;
    assert(inter_width(a, a) == a[2] - a[0]);
    assert(inter_height(a, a) == a[3] - a[1]);
    assert(intersection_area(a, a) == ar);
    assert(union_area(a, a) == ar);
    vstd::arithmetic::div_mod::lemma_div_multiples_vanish(FP_ONE as int, ar);
    assert(ar * FP_ONE == FP_ONE * ar) by (nonlinear_arith);
}

/// Non-overlapping boxes (empty intersection on either axis) have IoU
/// zero.
pub proof fn lemma_iou_disjoint(a: Seq<i64>, b: Seq<i64>)
    requires
        inter_width(a, b) == 0 || inter_height(a, b) == 0,
    ensures
        iou_scaled_spec(a, b) == 0,
{
    assert(intersection_area(a, b) == 0) by (nonlinear_arith)
        requires
            inter_width(a, b) == 0 || inter_height(a, b) == 0,
            intersection_area(a, b) == inter_width(a, b) * inter_height(a, b),
    ;
    if union_area(a, b) > 0 {
        vstd::arithmetic::div_mod::lemma_div_of0(union_area(a, b));
    }
}

} // verus!
