//! Raster images and the letterbox preprocessor.
//!
//! Images are held as plain RGB byte buffers ([`PixelBuffer`]) so that the
//! geometry around them can be verified; decoding compressed bytes and
//! the triangle-filter resampling are delegated to the `image` crate
//! through trusted wrappers.

use vstd::prelude::*;
use crate::error::AppError;
use crate::fixed::{round_div, round_div_spec};
use crate::resolver::MAX_TARGET_DIM;

verus! {

/// Gray fill value of the letterbox padding.
pub const LETTERBOX_FILL: u8 = 114;

/// An RGB image, row-major, three bytes per pixel.
#[derive(Debug, Clone)]
pub struct PixelBuffer {
    pub width: u32,
    pub height: u32,
    pub data: Vec<u8>,
}

impl PixelBuffer {
    /// The buffer holds exactly three bytes per pixel.
    pub open spec fn wf(self) -> bool {
        self.data@.len() == 3 * self.width * self.height
    }

    /// Channel `c` of the pixel at `(x, y)`.
    pub open spec fn pixel_spec(self, x: int, y: int, c: int) -> u8 {
        self.data@[3 * (y * self.width + x) + c]
    }

    /// Reads channel `c` (0 red, 1 green, 2 blue) of the pixel at `(x, y)`.
    pub fn get(&self, x: u32, y: u32, c: u32) -> (r: u8)
        requires
            self.wf(),
            x < self.width,
            y < self.height,
            c < 3,
        ensures
            r == self.pixel_spec(x as int, y as int, c as int),
    {
        proof {
            lemma_pixel_index_bounds(
                self.width as int,
                self.height as int,
                x as int,
                y as int,
                c as int,
            );
            assert(self.data@.len() == 3 * (self.width as int) * (self.height as int));
        }
        let n = self.data.len();
        proof {
            assert(n as int == 3 * (self.width as int * self.height as int));
            assert((y as int) * (self.width as int) <= self.width as int * self.height as int);
        }
        self.data[3 * ((y as usize) * (self.width as usize) + (x as usize)) + (c as usize)]
    }
}

/// The flat index of a pixel channel lies inside the buffer.
pub proof fn lemma_pixel_index_bounds(w: int, h: int, x: int, y: int, c: int)
    requires
        0 <= x < w,
        0 <= y < h,
        0 <= c < 3,
    ensures
        0 <= 3 * (y * w + x) + c < 3 * w * h,
        0 <= y * w + x < w * h,
        0 <= y * w <= w * h,
        3 * w * h == 3 * (w * h),
{
    assert(0 <= 3 * (y * w + x) + c < 3 * w * h && 0 <= y * w + x < w * h && 0 <= y * w <= w * h
        && 3 * w * h == 3 * (w * h)) by (nonlinear_arith)
        requires
            0 <= x < w,
            0 <= y < h,
            0 <= c < 3,
    ;
}

/// A dimension product of an image side and a target side stays small.
proof fn lemma_dim_product_bounded(a: int, b: int)
    requires
        0 <= a <= 0xFFFF_FFFF,
        0 <= b <= MAX_TARGET_DIM,
    ensures
        0 <= a * b <= 0xFFFF_FFFFint * MAX_TARGET_DIM as int,
        a * b == b * a,
{
    assert(0 <= a * b <= 0xFFFF_FFFFint * MAX_TARGET_DIM as int && a * b == b * a)
        by (nonlinear_arith)
        requires
            0 <= a <= 0xFFFF_FFFF,
            0 <= b <= MAX_TARGET_DIM as int,
    ;
}

/// The RGB pixels an image byte stream decodes to: a function of the
/// bytes alone, `(width, height, row-major RGB data)`.
pub uninterp spec fn decoded_rgb_of(bytes: Seq<u8>) -> (u32, u32, Seq<u8>);

/// Whether an image byte stream decodes at all: like the decode itself,
/// a function of the bytes alone (the format is guessed from them).
pub uninterp spec fn rgb_decodes(bytes: Seq<u8>) -> bool;

/// The triangle-filter resampling of an RGB buffer to a new size: a
/// function of the source data, its dimensions and the new dimensions.
pub uninterp spec fn resized_rgb_of(data: Seq<u8>, w: nat, h: nat, nw: nat, nh: nat) -> Seq<u8>;

#[verifier::external_type_specification]
#[verifier::external_body]
pub struct ExImageError(image::ImageError);

/// Relies on the `Display` rendering of `image::ImageError` for a
/// human-readable reason; nothing is assumed about its content.
#[verifier::external_body]
fn image_error_message(e: &image::ImageError) -> String {
    format!("{}", e)
}

/// Relies on `image::load_from_memory` (format guessed from the bytes)
/// and `DynamicImage::to_rgb8`: whether decoding succeeds, and what it
/// yields, are functions of the bytes alone; on success the buffer holds
/// three bytes per pixel.
#[verifier::external_body]
fn decode_rgb_image(bytes: &Vec<u8>) -> (r: Result<PixelBuffer, image::ImageError>)
    ensures
        r is Ok <==> rgb_decodes(bytes@),
        r matches Ok(img) ==> img.wf() && (img.width, img.height, img.data@) == decoded_rgb_of(
            bytes@,
        ),
{
    let img = image::load_from_memory(bytes.as_slice())?;
    let rgb = img.to_rgb8();
    let (width, height) = (rgb.width(), rgb.height());
    Ok(PixelBuffer { width, height, data: rgb.into_raw() })
}

/// Decodes compressed image bytes into an RGB buffer: succeeds exactly
/// on decodable byte streams, and reports the rest as
/// [`AppError::ImageReadError`].
pub fn load_rgb_from_memory(bytes: &Vec<u8>) -> (r: Result<PixelBuffer, AppError>)
    ensures
        r is Ok <==> rgb_decodes(bytes@),
        r matches Ok(img) ==> img.wf() && (img.width, img.height, img.data@) == decoded_rgb_of(
            bytes@,
        ),
        r is Err ==> r->Err_0 is ImageReadError,
{
    match decode_rgb_image(bytes) {
        Ok(img) => Ok(img),
        Err(e) => Err(AppError::ImageReadError(image_error_message(&e))),
    }
}

/// Relies on `image::imageops::resize` with `FilterType::Triangle` (and
/// `RgbImage::from_raw` / `into_raw` to convert): the result has the
/// requested dimensions, three bytes per pixel, and depends only on the
/// source pixels and the dimensions.
#[verifier::external_body]
fn resize_triangle(img: &PixelBuffer, new_width: u32, new_height: u32) -> (r: PixelBuffer)
    requires
        img.wf(),
        new_width <= 0x8000,
        new_height <= 0x8000,
    ensures
        r.wf(),
        r.width == new_width,
        r.height == new_height,
        r.data@ == resized_rgb_of(
            img.data@,
            img.width as nat,
            img.height as nat,
            new_width as nat,
            new_height as nat,
        ),
{
    let buf = image::RgbImage::from_raw(img.width, img.height, img.data.clone())
        .expect("buffer length matches dimensions");
    let resized = image::imageops::resize(
        &buf,
        new_width,
        new_height,
        image::imageops::FilterType::Triangle,
    );
    PixelBuffer { width: new_width, height: new_height, data: resized.into_raw() }
}

/// The resized dimensions of the aspect-preserving letterbox: with
/// `ratio = min(tw / w, th / h)`, the pair `(round(w * ratio),
/// round(h * ratio))`, computed exactly over rationals.
pub open spec fn letterbox_dims_spec(img_w: int, img_h: int, tw: int, th: int) -> (int, int) {
    if tw * img_h <= th * img_w {
        (tw, round_div_spec(img_h * tw, img_w))
    } else {
        (round_div_spec(img_w * th, img_h), th)
    }
}

/// Computes the resized dimensions of the letterbox. The limiting axis
/// lands exactly on its target; the other scales by the same ratio,
/// rounded to the nearest pixel, and never exceeds its target.
pub fn letterbox_dims(img_w: u32, img_h: u32, target_w: u32, target_h: u32) -> (r: (u32, u32))
    requires
        1 <= img_w,
        1 <= img_h,
        1 <= target_w <= MAX_TARGET_DIM,
        1 <= target_h <= MAX_TARGET_DIM,
    ensures
        (r.0 as int, r.1 as int) == letterbox_dims_spec(
            img_w as int,
            img_h as int,
            target_w as int,
            target_h as int,
        ),
        r.0 <= target_w,
        r.1 <= target_h,
{
    proof {
        lemma_dim_product_bounded(img_h as int, target_w as int);
        lemma_dim_product_bounded(img_w as int, target_h as int);
    }
    let wide = (img_h as u64) * (target_w as u64);
    let tall = (img_w as u64) * (target_h as u64);
    if wide <= tall {
        let new_h = round_div((img_h as i64) * (target_w as i64), img_w as i64);
        proof {
            crate::fixed::lemma_round_div_le(
                img_h as int * target_w as int,
                img_w as int,
                target_h as int,
            );
            vstd::arithmetic::div_mod::lemma_div_pos_is_pos(
                2 * (img_h as int * target_w as int) + img_w as int,
                2 * img_w as int,
            );
        }
        (target_w, new_h as u32)
    } else {
        let new_w = round_div((img_w as i64) * (target_h as i64), img_h as i64);
        proof {
            crate::fixed::lemma_round_div_le(
                img_w as int * target_h as int,
                img_h as int,
                target_w as int,
            );
            vstd::arithmetic::div_mod::lemma_div_pos_is_pos(
                2 * (img_w as int * target_h as int) + img_h as int,
                2 * img_h as int,
            );
        }
        (new_w as u32, target_h)
    }
}

/// What a letterbox canvas holds at `(x, y)`: the resized image where it
/// covers the canvas (it sits at the top-left corner), gray elsewhere.
pub open spec fn letterbox_pixel(resized: PixelBuffer, x: int, y: int, c: int) -> u8 {
    if x < resized.width && y < resized.height {
        resized.pixel_spec(x, y, c)
    } else {
        LETTERBOX_FILL
    }
}

/// Pastes the resized image onto a gray canvas of the target size, at the
/// top-left corner (the content is never centered).
pub fn compose_letterbox(resized: &PixelBuffer, target_w: u32, target_h: u32) -> (r: PixelBuffer)
    requires
        resized.wf(),
        1 <= target_w <= MAX_TARGET_DIM,
        1 <= target_h <= MAX_TARGET_DIM,
    ensures
        r.wf(),
        r.width == target_w,
        r.height == target_h,
        forall|x: int, y: int, c: int|
            0 <= x < target_w && 0 <= y < target_h && 0 <= c < 3 ==> #[trigger] r.pixel_spec(
                x,
                y,
                c,
            ) == letterbox_pixel(*resized, x, y, c),
{
    let ghost tw = target_w as int;
    let ghost th = target_h as int;
    let mut data: Vec<u8> = Vec::new();
    let mut y: u32 = 0;
    while y < target_h
        invariant
            0 <= y <= target_h,
            resized.wf(),
            1 <= target_w <= MAX_TARGET_DIM,
            1 <= target_h <= MAX_TARGET_DIM,
            tw == target_w as int,
            th == target_h as int,
            data@.len() == 3 * (y as int * tw),
            forall|yy: int, xx: int, cc: int|
                0 <= yy < y && 0 <= xx < tw && 0 <= cc < 3 ==> #[trigger] data@[3 * (yy * tw + xx)
                    + cc] == letterbox_pixel(*resized, xx, yy, cc),
        decreases target_h - y,
    {
        let mut x: u32 = 0;
        while x < target_w
            invariant
                0 <= x <= target_w,
                0 <= y < target_h,
                resized.wf(),
                1 <= target_w <= MAX_TARGET_DIM,
                1 <= target_h <= MAX_TARGET_DIM,
                tw == target_w as int,
                th == target_h as int,
                data@.len() == 3 * (y as int * tw + x as int),
                forall|yy: int, xx: int, cc: int|
                    0 <= yy < y && 0 <= xx < tw && 0 <= cc < 3 ==> #[trigger] data@[3 * (yy * tw
                        + xx) + cc] == letterbox_pixel(*resized, xx, yy, cc),
                forall|xx: int, cc: int|
                    0 <= xx < x && 0 <= cc < 3 ==> #[trigger] data@[3 * (y as int * tw + xx) + cc]
                        == letterbox_pixel(*resized, xx, y as int, cc),
            decreases target_w - x,
        {
            proof {
                assert(0 <= (y as int * tw + x as int) && (y as int * tw + x as int) < th * tw
                    && y as int * tw + x as int + 1 <= th * tw && 3 * (th * tw)
                    < 0x8000_0000int) by (nonlinear_arith)
                    requires
                        0 <= x as int,
                        (x as int) < tw,
                        tw <= MAX_TARGET_DIM as int,
                        0 <= y as int,
                        (y as int) < th,
                        th <= MAX_TARGET_DIM as int,
                ;
            }
            let inside = x < resized.width && y < resized.height;
            let v0 = if inside {
                resized.get(x, y, 0)
            } else {
                LETTERBOX_FILL
            };
            let v1 = if inside {
                resized.get(x, y, 1)
            } else {
                LETTERBOX_FILL
            };
            let v2 = if inside {
                resized.get(x, y, 2)
            } else {
                LETTERBOX_FILL
            };
            data.push(v0);
            data.push(v1);
            data.push(v2);
            proof {
                assert forall|xx: int, cc: int| 0 <= xx < x as int + 1 && 0 <= cc
                    < 3 implies #[trigger] data@[3 * (y as int * tw + xx) + cc] == letterbox_pixel(
                    *resized,
                    xx,
                    y as int,
                    cc,
                ) by {
                    if xx < x as int {
                        assert(0 <= 3 * (y as int * tw + xx) + cc < 3 * (y as int * tw + x as int))
                            by (nonlinear_arith)
                            requires
                                0 <= xx < x as int,
                                0 <= cc < 3,
                                0 <= y as int * tw,
                        ;
                    }
                }
                assert forall|yy: int, xx: int, cc: int|
                    0 <= yy < y as int && 0 <= xx < tw && 0 <= cc < 3 implies #[trigger] data@[3 * (
                yy * tw + xx) + cc] == letterbox_pixel(*resized, xx, yy, cc) by {
                    assert(0 <= 3 * (yy * tw + xx) + cc < 3 * (y as int * tw)) by (nonlinear_arith)
                        requires
                            0 <= yy,
                            yy < y as int,
                            0 <= xx < tw,
                            0 <= cc < 3,
                    ;
                }
            }
            x += 1;
        }
        proof {
            assert(3 * (y as int * tw + tw) == 3 * ((y as int + 1) * tw)) by (nonlinear_arith);
        }
        y += 1;
    }
    let canvas = PixelBuffer { width: target_w, height: target_h, data };
    proof {
        assert(canvas.wf()) by {
            assert(3 * (th * tw) == 3 * canvas.width * canvas.height) by (nonlinear_arith)
                requires
                    tw == canvas.width as int,
                    th == canvas.height as int,
            ;
        }
        assert forall|x: int, y: int, c: int|
            0 <= x < target_w && 0 <= y < target_h && 0 <= c < 3 implies #[trigger] canvas
            .pixel_spec(x, y, c) == letterbox_pixel(*resized, x, y, c) by {
            assert(canvas.data@[3 * (y * tw + x) + c] == letterbox_pixel(*resized, x, y, c));
        }
    }
    canvas
}

/// The clamped crop rectangle: the requested corner and size, limited to
/// the image bounds (a request reaching past an edge is shortened).
pub open spec fn clamped_crop_spec(img: PixelBuffer, x: int, y: int, w: int, h: int) -> (
    int,
    int,
    int,
    int,
) {
    let cx = vstd::math::min(x, img.width as int);
    let cy = vstd::math::min(y, img.height as int);
    let cw = vstd::math::min(w, img.width - cx);
    let ch = vstd::math::min(h, img.height - cy);
    (cx, cy, cw, ch)
}

/// Cuts out the rectangle at `(x, y)` of size `width x height`, clamped
/// to the image bounds; pixels are copied unchanged.
pub fn crop(img: &PixelBuffer, x: u32, y: u32, width: u32, height: u32) -> (r: PixelBuffer)
    requires
        img.wf(),
        img.width <= 0x4000,
        img.height <= 0x4000,
    ensures
        ({
            let (cx, cy, cw, ch) = clamped_crop_spec(
                *img,
                x as int,
                y as int,
                width as int,
                height as int,
            );
            &&& r.wf()
            &&& r.width == cw
            &&& r.height == ch
            &&& forall|xx: int, yy: int, cc: int|
                0 <= xx < cw && 0 <= yy < ch && 0 <= cc < 3 ==> #[trigger] r.pixel_spec(xx, yy, cc)
                    == img.pixel_spec(cx + xx, cy + yy, cc)
        }),
{
    let cx = if x < img.width {
        x
    } else {
        img.width
    };
    let cy = if y < img.height {
        y
    } else {
        img.height
    };
    let cw = if width < img.width - cx {
        width
    } else {
        img.width - cx
    };
    let ch = if height < img.height - cy {
        height
    } else {
        img.height - cy
    };
    let ghost cwi = cw as int;
    let ghost chi = ch as int;
    let mut data: Vec<u8> = Vec::new();
    let mut yy: u32 = 0;
    while yy < ch
        invariant
            0 <= yy <= ch,
            img.wf(),
            cx + cw <= img.width <= 0x4000,
            cy + ch <= img.height <= 0x4000,
            cwi == cw as int,
            chi == ch as int,
            data@.len() == 3 * (yy as int * cwi),
            forall|py: int, px: int, cc: int|
                0 <= py < yy && 0 <= px < cwi && 0 <= cc < 3 ==> #[trigger] data@[3 * (py * cwi
                    + px) + cc] == img.pixel_spec(cx as int + px, cy as int + py, cc),
        decreases ch - yy,
    {
        let mut xx: u32 = 0;
        while xx < cw
            invariant
                0 <= xx <= cw,
                0 <= yy < ch,
                img.wf(),
                cx + cw <= img.width <= 0x4000,
                cy + ch <= img.height <= 0x4000,
                cwi == cw as int,
                chi == ch as int,
                data@.len() == 3 * (yy as int * cwi + xx as int),
                forall|py: int, px: int, cc: int|
                    0 <= py < yy && 0 <= px < cwi && 0 <= cc < 3 ==> #[trigger] data@[3 * (py * cwi
                        + px) + cc] == img.pixel_spec(cx as int + px, cy as int + py, cc),
                forall|px: int, cc: int|
                    0 <= px < xx && 0 <= cc < 3 ==> #[trigger] data@[3 * (yy as int * cwi + px)
                        + cc] == img.pixel_spec(cx as int + px, cy as int + yy, cc),
            decreases cw - xx,
        {
            proof {
                assert(0 <= yy as int * cwi + xx as int && yy as int * cwi + xx as int + 1 <= chi
                    * cwi && 3 * (chi * cwi) < 0x8000_0000int) by (nonlinear_arith)
                    requires
                        0 <= xx as int,
                        (xx as int) < cwi,
                        cwi <= 0x4000,
                        0 <= yy as int,
                        (yy as int) < chi,
                        chi <= 0x4000,
                ;
            }
            let v0 = img.get(cx + xx, cy + yy, 0);
            let v1 = img.get(cx + xx, cy + yy, 1);
            let v2 = img.get(cx + xx, cy + yy, 2);
            data.push(v0);
            data.push(v1);
            data.push(v2);
            proof {
                assert forall|px: int, cc: int| 0 <= px < xx as int + 1 && 0 <= cc
                    < 3 implies #[trigger] data@[3 * (yy as int * cwi + px) + cc] == img.pixel_spec(
                    cx as int + px,
                    cy as int + yy,
                    cc,
                ) by {
                    if px < xx as int {
                        assert(0 <= 3 * (yy as int * cwi + px) + cc < 3 * (yy as int * cwi
                            + xx as int)) by (nonlinear_arith)
                            requires
                                0 <= px < xx as int,
                                0 <= cc < 3,
                                0 <= yy as int * cwi,
                        ;
                    }
                }
                assert forall|py: int, px: int, cc: int|
                    0 <= py < yy as int && 0 <= px < cwi && 0 <= cc < 3 implies #[trigger] data@[3
                    * (py * cwi + px) + cc] == img.pixel_spec(cx as int + px, cy as int + py, cc)
                    by {
                    assert(0 <= 3 * (py * cwi + px) + cc < 3 * (yy as int * cwi))
                        by (nonlinear_arith)
                        requires
                            0 <= py,
                            py < yy as int,
                            0 <= px < cwi,
                            0 <= cc < 3,
                    ;
                }
            }
            xx += 1;
        }
        proof {
            assert(3 * (yy as int * cwi + cwi) == 3 * ((yy as int + 1) * cwi)) by (nonlinear_arith);
        }
        yy += 1;
    }
    let out = PixelBuffer { width: cw, height: ch, data };
    proof {
        assert(out.wf()) by {
            assert(3 * (chi * cwi) == 3 * out.width * out.height) by (nonlinear_arith)
                requires
                    cwi == out.width as int,
                    chi == out.height as int,
            ;
        }
        assert forall|xx: int, yy2: int, cc: int|
            0 <= xx < cwi && 0 <= yy2 < chi && 0 <= cc < 3 implies #[trigger] out.pixel_spec(
            xx,
            yy2,
            cc,
        ) == img.pixel_spec(cx as int + xx, cy as int + yy2, cc) by {
            assert(out.data@[3 * (yy2 * cwi + xx) + cc] == img.pixel_spec(
                cx as int + xx,
                cy as int + yy2,
                cc,
            ));
        }
    }
    out
}

/// One channel of the resampled image, as the resampling name defines it.
pub open spec fn resized_pixel_of(
    data: Seq<u8>,
    w: nat,
    h: nat,
    nw: nat,
    nh: nat,
    x: int,
    y: int,
    c: int,
) -> u8 {
    resized_rgb_of(data, w, h, nw, nh)[3 * (y * nw + x) + c]
}

/// Letterboxes an image into the target size, top-left variant: the image
/// scales by `min(target_w / w, target_h / h)` (aspect preserved, through
/// the triangle filter), lands at the top-left corner of a gray canvas of
/// the target size, and the actual resized dimensions are returned for
/// the later inverse mapping.
pub fn preprocess_image_topleft(img: &PixelBuffer, target_height: u32, target_width: u32) -> (r: (
    PixelBuffer,
    u32,
    u32,
))
    requires
        img.wf(),
        1 <= img.width,
        1 <= img.height,
        1 <= target_width <= MAX_TARGET_DIM,
        1 <= target_height <= MAX_TARGET_DIM,
    ensures
        ({
            let (canvas, new_w, new_h) = r;
            &&& (new_w as int, new_h as int) == letterbox_dims_spec(
                img.width as int,
                img.height as int,
                target_width as int,
                target_height as int,
            )
            &&& new_w <= target_width
            &&& new_h <= target_height
            &&& canvas.wf()
            &&& canvas.width == target_width
            &&& canvas.height == target_height
            &&& forall|x: int, y: int, c: int|
                0 <= x < target_width && 0 <= y < target_height && 0 <= c < 3
                    ==> #[trigger] canvas.pixel_spec(x, y, c) == if x < new_w && y < new_h {
                    resized_pixel_of(
                        img.data@,
                        img.width as nat,
                        img.height as nat,
                        new_w as nat,
                        new_h as nat,
                        x,
                        y,
                        c,
                    )
                } else {
                    LETTERBOX_FILL
                }
        }),
{
    let (new_w, new_h) = letterbox_dims(img.width, img.height, target_width, target_height);
    let resized = resize_triangle(img, new_w, new_h);
    let canvas = compose_letterbox(&resized, target_width, target_height);
    proof {
        assert forall|x: int, y: int, c: int|
            0 <= x < new_w && 0 <= y < new_h && 0 <= c < 3 implies #[trigger] resized.pixel_spec(
            x,
            y,
            c,
        ) == resized_pixel_of(
            img.data@,
            img.width as nat,
            img.height as nat,
            new_w as nat,
            new_h as nat,
            x,
            y,
            c,
        ) by {}
    }
    (canvas, new_w, new_h)
}

/// Stretches an image to a `size x size` square through the triangle
/// filter, not preserving aspect ratio: the direct resize the recognizer
/// input calls for, in contrast to the letterbox fit of the detector.
pub fn stretch_exact(img: &PixelBuffer, size: u32) -> (r: PixelBuffer)
    requires
        img.wf(),
        1 <= size <= 0x8000,
    ensures
        r.wf(),
        r.width == size,
        r.height == size,
        r.data@ == resized_rgb_of(
            img.data@,
            img.width as nat,
            img.height as nat,
            size as nat,
            size as nat,
        ),
{
    resize_triangle(img, size, size)
}

} // verus!
