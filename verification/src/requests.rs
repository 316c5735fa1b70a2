//! Request validation rules.
//!
//! The service layer parses uploads and hands the plain values here; the
//! functions state exactly which inputs are rejected and with which
//! message. Coordinates arrive in fixed-point thousandths.

use vstd::prelude::*;
use vstd::std_specs::iter::IteratorSpec;
use vstd::string::StringExecFns;
use crate::error::AppError;
use crate::faces::MAX_IMAGE_DIMENSION;
use crate::fixed::FP_ONE;

verus! {

/// A person as shown in the gallery: the stored name and a base64
/// rendering of the stored face crop, without the embedding itself.
#[derive(Debug, Clone)]
pub struct GalleryPerson {
    pub name: String,
    pub image_base64: String,
}

/// Largest accepted image upload, in bytes.
pub const MAX_IMAGE_SIZE: usize = 15728640;

/// Longest accepted person name, in bytes.
pub const MAX_NAME_LENGTH: usize = 100;

/// Smallest accepted image dimension.
pub const MIN_IMAGE_DIMENSION: u32 = 32;

/// Similarity below which a match is reported as unknown, in fixed-point
/// thousandths.
pub const SIMILARITY_THRESHOLD: i64 = 450;

/// Whether a character is whitespace: the Unicode `White_Space` set, the
/// class trimmed from names.
pub open spec fn is_space(c: char) -> bool {
    let u = c as u32;
    ||| u == 0x20
    ||| 0x09 <= u <= 0x0D
    ||| u == 0x85
    ||| u == 0xA0
    ||| u == 0x1680
    ||| 0x2000 <= u <= 0x200A
    ||| u == 0x2028
    ||| u == 0x2029
    ||| u == 0x202F
    ||| u == 0x205F
    ||| u == 0x3000
}

/// Whether a name is blank: empty or whitespace only.
pub open spec fn is_blank_spec(s: Seq<char>) -> bool {
    forall|i: int| 0 <= i < s.len() ==> is_space(#[trigger] s[i])
}

/// Validates an uploaded image's byte count: neither empty nor over the
/// size cap.
pub fn validate_image_bytes(len: usize) -> (r: Result<(), AppError>)
    ensures
        r is Ok <==> 0 < len <= MAX_IMAGE_SIZE,
        len == 0 ==> (r matches Err(AppError::BadRequest(m)) && m@ == "Image data is empty"@),
        len > MAX_IMAGE_SIZE ==> (r matches Err(AppError::BadRequest(m)) && m@
            == "Image too large (max 15 MB)"@),
{
    if len == 0 {
        Err(AppError::BadRequest(String::from_str("Image data is empty")))
    } else if len > MAX_IMAGE_SIZE {
        Err(AppError::BadRequest(String::from_str("Image too large (max 15 MB)")))
    } else {
        Ok(())
    }
}

/// Validates a decoded image's dimensions against the accepted range.
pub fn validate_image_dims(width: u32, height: u32) -> (r: Result<(), AppError>)
    ensures
        r is Ok <==> (MIN_IMAGE_DIMENSION <= width <= MAX_IMAGE_DIMENSION && MIN_IMAGE_DIMENSION
            <= height <= MAX_IMAGE_DIMENSION),
        (width < MIN_IMAGE_DIMENSION || height < MIN_IMAGE_DIMENSION) ==> (r matches Err(
            AppError::BadRequest(m),
        ) && m@ == "Image too small (min 32x32)"@),
        (width >= MIN_IMAGE_DIMENSION && height >= MIN_IMAGE_DIMENSION && (width
            > MAX_IMAGE_DIMENSION || height > MAX_IMAGE_DIMENSION)) ==> (r matches Err(
            AppError::BadRequest(m),
        ) && m@ == "Image too large (max 8192x8192)"@),
{
    if width < MIN_IMAGE_DIMENSION || height < MIN_IMAGE_DIMENSION {
        Err(AppError::BadRequest(String::from_str("Image too small (min 32x32)")))
    } else if width > MAX_IMAGE_DIMENSION || height > MAX_IMAGE_DIMENSION {
        Err(AppError::BadRequest(String::from_str("Image too large (max 8192x8192)")))
    } else {
        Ok(())
    }
}

/// Validates an enrollment name: rejects blank names (empty or Unicode
/// whitespace only) and names whose UTF-8 form is over the length cap.
pub fn validate_person_name(name: &String) -> (r: Result<(), AppError>)
    ensures
        r is Ok <==> (!is_blank_spec(name@) && vstd::utf8::encode_utf8(name@).len()
            <= MAX_NAME_LENGTH),
        is_blank_spec(name@) ==> (r matches Err(AppError::BadRequest(m)) && m@
            == "Name cannot be empty"@),
        (!is_blank_spec(name@) && vstd::utf8::encode_utf8(name@).len() > MAX_NAME_LENGTH) ==> (
        r matches Err(AppError::BadRequest(m)) && m@ == "Name too long (max 100 characters)"@),
{
    broadcast use vstd::string::next_postcondition;

    let s = name.as_str();
    proof {
        vstd::string::axiom_spec_iter(s);
    }
    let ghost full = s@;
    let mut it = s.chars();
    let ghost mut seen: int = 0;
    let mut blank = true;
    loop
        invariant
            0 <= seen <= full.len(),
            full == name@,
            it.remaining() == full.skip(seen),
            blank <==> (forall|k: int| 0 <= k < seen ==> is_space(#[trigger] full[k])),
        ensures
            seen == full.len(),
            blank <==> (forall|k: int| 0 <= k < full.len() ==> is_space(#[trigger] full[k])),
        decreases full.len() - seen,
    {
        match it.next() {
            Some(c) => {
                proof {
                    assert(full.skip(seen).len() > 0);
                    assert(c == full.skip(seen)[0]);
                    assert(full.skip(seen)[0] == full[seen]);
                    assert(full.skip(seen).drop_first() =~= full.skip(seen + 1));
                }
                let u = c as u32;
                let ws = u == 0x20 || (0x09 <= u && u <= 0x0D) || u == 0x85 || u == 0xA0 || u
                    == 0x1680 || (0x2000 <= u && u <= 0x200A) || u == 0x2028 || u == 0x2029 || u
                    == 0x202F || u == 0x205F || u == 0x3000;
                if !ws {
                    blank = false;
                }
                proof {
                    seen = seen + 1;
                }
            },
            None => {
                proof {
                    assert(full.skip(seen).len() == 0);
                }
                break;
            },
        }
    }
    let bytes = s.as_bytes();
    if blank {
        Err(AppError::BadRequest(String::from_str("Name cannot be empty")))
    } else if bytes.len() > MAX_NAME_LENGTH {
        Err(AppError::BadRequest(String::from_str("Name too long (max 100 characters)")))
    } else {
        Ok(())
    }
}

/// Validates a caller-supplied enrollment box against the image bounds:
/// it must lie inside the image with its corners in order.
pub fn validate_enroll_bbox(bbox: &[i64; 4], image_width: u32, image_height: u32) -> (r: Result<
    (),
    AppError,
>)
    ensures
        r is Ok <==> (bbox@[0] >= 0 && bbox@[1] >= 0 && bbox@[2] <= image_width * FP_ONE && bbox@[3]
            <= image_height * FP_ONE && bbox@[0] < bbox@[2] && bbox@[1] < bbox@[3]),
        (bbox@[0] < 0 || bbox@[1] < 0 || bbox@[2] > image_width * FP_ONE || bbox@[3]
            > image_height * FP_ONE) ==> (r matches Err(AppError::BadRequest(m)) && m@
            == "Bounding box coordinates are out of image bounds"@),
        (bbox@[0] >= 0 && bbox@[1] >= 0 && bbox@[2] <= image_width * FP_ONE && bbox@[3]
            <= image_height * FP_ONE && (bbox@[0] >= bbox@[2] || bbox@[1] >= bbox@[3])) ==> (
        r matches Err(AppError::BadRequest(m)) && m@
            == "Invalid bounding box: x1 must be < x2 and y1 must be < y2"@),
{
    let wf = (image_width as i64) * (FP_ONE as i64);
    let hf = (image_height as i64) * (FP_ONE as i64);
    if bbox[0] < 0 || bbox[1] < 0 || bbox[2] > wf || bbox[3] > hf {
        Err(
            AppError::BadRequest(
                String::from_str("Bounding box coordinates are out of image bounds"),
            ),
        )
    } else if bbox[0] >= bbox[2] || bbox[1] >= bbox[3] {
        Err(
            AppError::BadRequest(
                String::from_str("Invalid bounding box: x1 must be < x2 and y1 must be < y2"),
            ),
        )
    } else {
        Ok(())
    }
}

/// The name reported for a nearest match: the stored name when the
/// similarity reaches the threshold, otherwise the unknown marker.
pub fn resolve_match_name(name: String, similarity: i64) -> (r: String)
    ensures
        similarity >= SIMILARITY_THRESHOLD ==> r@ == name@,
        similarity < SIMILARITY_THRESHOLD ==> r@ == "Unknown"@,
{
    if similarity < SIMILARITY_THRESHOLD {
        String::from_str("Unknown")
    } else {
        name
    }
}

} // verus!
