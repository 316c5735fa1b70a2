//! Face detections and their coordinate arithmetic.
//!
//! A [`DetectedFace`] lives first in model-input pixel space (as decoded
//! from the detector tensors) and, after [`DetectedFace::scale_to_original`],
//! in original-image pixel space; callers track which space a value is in.
//! Coordinates and the confidence score are fixed-point thousandths
//! (see [`crate::fixed`]).

use vstd::prelude::*;
use crate::fixed::{FP_ONE, ROUND_DIV_LIMIT, round_div, round_div_spec};

verus! {

/// Bound on the magnitude of any face coordinate the pipeline handles;
/// roughly two billion pixels, far beyond any accepted image or any
/// decodable proposal.
pub const COORD_LIMIT: i64 = 0x200_0000_0000;

/// Largest image dimension the service accepts.
pub const MAX_IMAGE_DIMENSION: u32 = 8192;

/// Calibration offset subtracted from every x coordinate when mapping
/// back to original-image space, in fixed-point thousandths. The value
/// compensates a consistent bias introduced upstream; its derivation is
/// not documented, so it stays a named constant rather than a formula.
pub const X_OFFSET: i64 = 50000;

/// Calibration offset subtracted from every y coordinate when mapping
/// back to original-image space, in fixed-point thousandths.
pub const Y_OFFSET: i64 = 50000;

/// A decoded face detection: corner-form bounding box `[x1, y1, x2, y2]`,
/// five keypoints flattened as `[x0, y0, .., x4, y4]`, and a confidence
/// score, all in fixed-point thousandths.
#[derive(Debug, Clone, Copy, PartialEq, Eq)]
pub struct DetectedFace {
    pub bbox: [i64; 4],
    pub kps: [i64; 10],
    pub score: i64,
}

/// One remapped coordinate: scaled by `orig / resized` (rounded to the
/// nearest fixed-point step) and shifted by the calibration offset.
pub open spec fn scale_coord_spec(c: int, orig: int, resized: int, offset: int) -> int {
    round_div_spec(c * orig, resized) - offset
}

/// Letterboxing scales an axis by `resized / orig`; mapping a detection
/// back multiplies by `orig / resized`. Rounding each direction to the
/// nearest step, a coordinate `q` returns to a point `q2` within half a
/// step of each space: `|q2 - q| <= (resized + orig) / (2 * resized)`,
/// stated multiplied out. The fixed calibration offset is ignored here,
/// as it shifts both directions equally.
pub proof fn lemma_coordinate_round_trip(q: int, orig: int, resized: int)
    requires
        1 <= orig,
        1 <= resized,
    ensures
        ({
            let p = round_div_spec(q * resized, orig);
            let q2 = scale_coord_spec(p, orig, resized, 0);
            -(resized + orig) <= 2 * resized * (q2 - q) <= resized + orig
        }),
{
    let p = round_div_spec(q * resized, orig);
    let q2 = scale_coord_spec(p, orig, resized, 0);
    crate::fixed::lemma_round_div_error(q * resized, orig);
    crate::fixed::lemma_round_div_error(p * orig, resized);
    assert(q2 == round_div_spec(p * orig, resized));
    assert(2 * (p * orig - q * resized) <= orig && 2 * (q * resized - p * orig) <= orig);
    assert(2 * (q2 * resized - p * orig) <= resized && 2 * (p * orig - q2 * resized) <= resized);
    assert(2 * resized * (q2 - q) == 2 * (q2 * resized) - 2 * (q * resized)) by (nonlinear_arith);
}

/// Remaps one coordinate along one axis.
fn scale_axis(c: i64, orig: u32, resized: u32, offset: i64) -> (r: i64)
    requires
        -COORD_LIMIT < c < COORD_LIMIT,
        0 < orig <= MAX_IMAGE_DIMENSION,
        0 < resized,
        -COORD_LIMIT < offset < COORD_LIMIT,
    ensures
        r == scale_coord_spec(c as int, orig as int, resized as int, offset as int),
{
    proof {
        assert(-ROUND_DIV_LIMIT < c * orig < ROUND_DIV_LIMIT) by (nonlinear_arith)
            requires
                -COORD_LIMIT < c < COORD_LIMIT,
                0 < orig <= MAX_IMAGE_DIMENSION,
        ;
    }
    round_div(c * (orig as i64), resized as i64) - offset
}

impl DetectedFace {
    /// Every coordinate of the face is within [`COORD_LIMIT`].
    pub open spec fn coords_bounded(self) -> bool {
        &&& forall|i: int| 0 <= i < 4 ==> -COORD_LIMIT < #[trigger] self.bbox@[i] < COORD_LIMIT
        &&& forall|i: int| 0 <= i < 10 ==> -COORD_LIMIT < #[trigger] self.kps@[i] < COORD_LIMIT
    }

    /// Rescales the face from model-input space to original-image space.
    ///
    /// The scale on each axis is the rational `orig / resized` of the
    /// original image dimension over the post-letterbox resized dimension,
    /// and the fixed calibration offsets are subtracted afterwards.
    pub fn scale_to_original(
        &mut self,
        orig_w: u32,
        resized_w: u32,
        orig_h: u32,
        resized_h: u32,
        x_offset: i64,
        y_offset: i64,
    )
        requires
            old(self).coords_bounded(),
            0 < resized_w,
            0 < resized_h,
            0 < orig_w <= MAX_IMAGE_DIMENSION,
            0 < orig_h <= MAX_IMAGE_DIMENSION,
            -COORD_LIMIT < x_offset < COORD_LIMIT,
            -COORD_LIMIT < y_offset < COORD_LIMIT,
        ensures
            final(self).bbox@[0] == scale_coord_spec(
                old(self).bbox@[0] as int,
                orig_w as int,
                resized_w as int,
                x_offset as int,
            ),
            final(self).bbox@[1] == scale_coord_spec(
                old(self).bbox@[1] as int,
                orig_h as int,
                resized_h as int,
                y_offset as int,
            ),
            final(self).bbox@[2] == scale_coord_spec(
                old(self).bbox@[2] as int,
                orig_w as int,
                resized_w as int,
                x_offset as int,
            ),
            final(self).bbox@[3] == scale_coord_spec(
                old(self).bbox@[3] as int,
                orig_h as int,
                resized_h as int,
                y_offset as int,
            ),
            forall|k: int|
                0 <= k < 5 ==> #[trigger] final(self).kps@[2 * k] == scale_coord_spec(
                    old(self).kps@[2 * k] as int,
                    orig_w as int,
                    resized_w as int,
                    x_offset as int,
                ),
            forall|k: int|
                0 <= k < 5 ==> #[trigger] final(self).kps@[2 * k + 1] == scale_coord_spec(
                    old(self).kps@[2 * k + 1] as int,
                    orig_h as int,
                    resized_h as int,
                    y_offset as int,
                ),
            final(self).score == old(self).score,
    {
        let x1 = scale_axis(self.bbox[0], orig_w, resized_w, x_offset);
        let y1 = scale_axis(self.bbox[1], orig_h, resized_h, y_offset);
        let x2 = scale_axis(self.bbox[2], orig_w, resized_w, x_offset);
        let y2 = scale_axis(self.bbox[3], orig_h, resized_h, y_offset);
        self.bbox = [x1, y1, x2, y2];

        let k0x = scale_axis(self.kps[0], orig_w, resized_w, x_offset);
        let k0y = scale_axis(self.kps[1], orig_h, resized_h, y_offset);
        let k1x = scale_axis(self.kps[2], orig_w, resized_w, x_offset);
        let k1y = scale_axis(self.kps[3], orig_h, resized_h, y_offset);
        let k2x = scale_axis(self.kps[4], orig_w, resized_w, x_offset);
        let k2y = scale_axis(self.kps[5], orig_h, resized_h, y_offset);
        let k3x = scale_axis(self.kps[6], orig_w, resized_w, x_offset);
        let k3y = scale_axis(self.kps[7], orig_h, resized_h, y_offset);
        let k4x = scale_axis(self.kps[8], orig_w, resized_w, x_offset);
        let k4y = scale_axis(self.kps[9], orig_h, resized_h, y_offset);
        self.kps = [k0x, k0y, k1x, k1y, k2x, k2y, k3x, k3y, k4x, k4y];
    }

    /// Whether the box lies fully inside an image of the given size with
    /// positive width and height.
    pub open spec fn in_bounds_spec(self, image_width: int, image_height: int) -> bool {
        &&& self.bbox@[0] >= 0
        &&& self.bbox@[1] >= 0
        &&& self.bbox@[2] <= image_width * FP_ONE
        &&& self.bbox@[3] <= image_height * FP_ONE
        &&& self.bbox@[0] < self.bbox@[2]
        &&& self.bbox@[1] < self.bbox@[3]
    }

    /// The crop rectangle `(x, y, width, height)` in whole pixels that
    /// [`DetectedFace::get_safe_crop_coords`] returns: the box clamped to
    /// the image, rounded to the nearest pixel, with a guaranteed 1x1
    /// minimum.
    pub open spec fn safe_crop_spec(self, image_width: int, image_height: int) -> (
        int,
        int,
        int,
        int,
    ) {
        let x1 = round_div_spec(vstd::math::max(self.bbox@[0] as int, 0), FP_ONE as int);
        let y1 = round_div_spec(vstd::math::max(self.bbox@[1] as int, 0), FP_ONE as int);
        let x2 = vstd::math::max(
            round_div_spec(
                vstd::math::min(self.bbox@[2] as int, image_width * FP_ONE),
                FP_ONE as int,
            ),
            0,
        );
        let y2 = vstd::math::max(
            round_div_spec(
                vstd::math::min(self.bbox@[3] as int, image_height * FP_ONE),
                FP_ONE as int,
            ),
            0,
        );
        (x1, y1, vstd::math::max(x2 - x1, 1), vstd::math::max(y2 - y1, 1))
    }

    /// Clamps the box to the image and returns whole-pixel crop
    /// coordinates `(x, y, width, height)`, never smaller than 1x1.
    pub fn get_safe_crop_coords(&self, image_width: u32, image_height: u32) -> (r: (
        u32,
        u32,
        u32,
        u32,
    ))
        requires
            self.coords_bounded(),
        ensures
            ({
                let (x, y, w, h) = self.safe_crop_spec(image_width as int, image_height as int);
                r.0 == x && r.1 == y && r.2 == w && r.3 == h
            }),
    {
        proof {
            let u = u32::MAX as int;
            crate::fixed::lemma_round_div_le(
                vstd::math::max(self.bbox@[0] as int, 0),
                FP_ONE as int,
                u,
            );
            crate::fixed::lemma_round_div_le(
                vstd::math::max(self.bbox@[1] as int, 0),
                FP_ONE as int,
                u,
            );
            crate::fixed::lemma_round_div_le(
                vstd::math::min(self.bbox@[2] as int, image_width as int * FP_ONE),
                FP_ONE as int,
                image_width as int,
            );
            crate::fixed::lemma_round_div_le(
                vstd::math::min(self.bbox@[3] as int, image_height as int * FP_ONE),
                FP_ONE as int,
                image_height as int,
            );
        }
        let b0 = if self.bbox[0] > 0 {
            self.bbox[0]
        } else {
            0
        };
        let b1 = if self.bbox[1] > 0 {
            self.bbox[1]
        } else {
            0
        };
        let wf = (image_width as i64) * (FP_ONE as i64);
        let hf = (image_height as i64) * (FP_ONE as i64);
        let b2 = if self.bbox[2] < wf {
            self.bbox[2]
        } else {
            wf
        };
        let b3 = if self.bbox[3] < hf {
            self.bbox[3]
        } else {
            hf
        };
        let x1 = round_div(b0, FP_ONE) as u32;
        let y1 = round_div(b1, FP_ONE) as u32;
        let x2r = round_div(b2, FP_ONE);
        let y2r = round_div(b3, FP_ONE);
        let x2: u32 = if x2r < 0 {
            0
        } else {
            x2r as u32
        };
        let y2: u32 = if y2r < 0 {
            0
        } else {
            y2r as u32
        };
        let width = if x2 > x1 && x2 - x1 > 1 {
            x2 - x1
        } else {
            1
        };
        let height = if y2 > y1 && y2 - y1 > 1 {
            y2 - y1
        } else {
            1
        };
        (x1, y1, width, height)
    }

    /// The square gallery crop `(x, y, size)` that
    /// [`DetectedFace::get_square_crop_coords`] returns: a square around
    /// the face center, grown by the padding factor (fixed-point
    /// thousandths) and clamped to the image.
    pub open spec fn square_crop_spec(self, image_width: int, image_height: int, pf: int) -> (
        int,
        int,
        int,
    ) {
        let face_w = vstd::math::abs((self.bbox@[2] - self.bbox@[0]) as int) as int;
        let face_h = vstd::math::abs((self.bbox@[3] - self.bbox@[1]) as int) as int;
        let base = vstd::math::max(face_w, face_h);
        let crop_size = vstd::math::min(
            round_div_spec(base * (FP_ONE + pf), (FP_ONE * FP_ONE) as int),
            u32::MAX as int,
        );
        let cx2 = (self.bbox@[0] + self.bbox@[2]) as int;
        let cy2 = (self.bbox@[1] + self.bbox@[3]) as int;
        let center_x = if cx2 < 0 {
            0
        } else {
            (cx2 / 2) / (FP_ONE as int)
        };
        let center_y = if cy2 < 0 {
            0
        } else {
            (cy2 / 2) / (FP_ONE as int)
        };
        let half = crop_size / 2;
        let crop_x = vstd::math::min(
            vstd::math::max(center_x - half, 0),
            vstd::math::max(image_width - crop_size, 0),
        );
        let crop_y = vstd::math::min(
            vstd::math::max(center_y - half, 0),
            vstd::math::max(image_height - crop_size, 0),
        );
        let final_size = vstd::math::min(
            crop_size,
            vstd::math::min(image_width - crop_x, image_height - crop_y),
        );
        (crop_x, crop_y, final_size)
    }

    /// Returns a padded square crop `(x, y, size)` around the face for
    /// gallery display; `padding_factor` is in fixed-point thousandths.
    pub fn get_square_crop_coords(
        &self,
        image_width: u32,
        image_height: u32,
        padding_factor: i64,
    ) -> (r: (u32, u32, u32))
        requires
            self.coords_bounded(),
            0 <= padding_factor <= 100 * FP_ONE,
        ensures
            ({
                let (x, y, s) = self.square_crop_spec(
                    image_width as int,
                    image_height as int,
                    padding_factor as int,
                );
                r.0 == x && r.1 == y && r.2 == s
            }),
    {
        let dx = self.bbox[2] - self.bbox[0];
        let dy = self.bbox[3] - self.bbox[1];
        let face_width = if dx >= 0 {
            dx
        } else {
            -dx
        };
        let face_height = if dy >= 0 {
            dy
        } else {
            -dy
        };
        let base_size = if face_width > face_height {
            face_width
        } else {
            face_height
        };
        proof {
            assert(base_size * (FP_ONE + padding_factor) < ROUND_DIV_LIMIT) by (nonlinear_arith)
                requires
                    0 <= base_size < 2 * COORD_LIMIT,
                    FP_ONE <= FP_ONE + padding_factor <= 101 * FP_ONE,
            ;
        }
        let crop_raw = round_div(base_size * (FP_ONE + padding_factor), FP_ONE * FP_ONE);
        let crop_size: u32 = if crop_raw > u32::MAX as i64 {
            u32::MAX
        } else {
            crop_raw as u32
        };

        let cx2 = self.bbox[0] + self.bbox[2];
        let cy2 = self.bbox[1] + self.bbox[3];
        let center_x: u32 = if cx2 < 0 {
            0
        } else {
            ((cx2 / 2) / FP_ONE) as u32
        };
        let center_y: u32 = if cy2 < 0 {
            0
        } else {
            ((cy2 / 2) / FP_ONE) as u32
        };

        let half_size = crop_size / 2;
        let left = if center_x > half_size {
            center_x - half_size
        } else {
            0
        };
        let top = if center_y > half_size {
            center_y - half_size
        } else {
            0
        };
        let max_x = if image_width > crop_size {
            image_width - crop_size
        } else {
            0
        };
        let max_y = if image_height > crop_size {
            image_height - crop_size
        } else {
            0
        };
        let crop_x = if left < max_x {
            left
        } else {
            max_x
        };
        let crop_y = if top < max_y {
            top
        } else {
            max_y
        };

        let mut final_crop_size = crop_size;
        if image_width - crop_x < final_crop_size {
            final_crop_size = image_width - crop_x;
        }
        if image_height - crop_y < final_crop_size {
            final_crop_size = image_height - crop_y;
        }

        (crop_x, crop_y, final_crop_size)
    }

    /// Validates that the (mapped) box is usable for recognition: inside
    /// the image and non-degenerate.
    pub fn validate_bounds(&self, image_width: u32, image_height: u32) -> (r: bool)
        ensures
            r == self.in_bounds_spec(image_width as int, image_height as int),
    {
        self.bbox[0] >= 0 && self.bbox[1] >= 0 && self.bbox[2] <= (image_width as i64) * (
        FP_ONE as i64) && self.bbox[3] <= (image_height as i64) * (FP_ONE as i64) && self.bbox[0]
            < self.bbox[2] && self.bbox[1] < self.bbox[3]
    }
}

} // verus!
