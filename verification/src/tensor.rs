//! Model input tensor layout.
//!
//! Both models take an NCHW tensor in **blue, green, red** channel order
//! with every sample normalized as `(v - 127.5) / 127.5`. That quotient
//! is exactly `(2 v - 255) / 255`, so this module emits the integer
//! numerators `2 v - 255`; the caller divides by `255.0` when filling the
//! float tensor, which keeps the layout and channel-order contract exact.

use vstd::prelude::*;
use crate::raster::PixelBuffer;
use crate::resolver::MAX_TARGET_DIM;

verus! {

/// The normalization numerator of one sample value.
pub open spec fn numerator_spec(v: u8) -> int {
    2 * v - 255
}

/// The numerator the tensor holds at channel plane `c` (0 blue, 1 green,
/// 2 red), row `y`, column `x`: the image's channel `2 - c` at `(x, y)`.
pub open spec fn chw_bgr_value(img: PixelBuffer, c: int, y: int, x: int) -> int {
    numerator_spec(img.pixel_spec(x, y, 2 - c))
}

/// Lays the image out as an NCHW tensor of normalization numerators in
/// blue, green, red channel order: entry `c * height * width + y * width
/// + x` is `2 * pixel - 255` of source channel `2 - c`.
pub fn chw_bgr_numerators(img: &PixelBuffer) -> (r: Vec<i16>)
    requires
        img.wf(),
        img.width <= MAX_TARGET_DIM,
        img.height <= MAX_TARGET_DIM,
    ensures
        r@.len() == 3 * img.width * img.height,
        forall|c: int, y: int, x: int|
            0 <= c < 3 && 0 <= y < img.height && 0 <= x < img.width ==> #[trigger] r@[c * (
            img.height * img.width) + y * img.width + x] == chw_bgr_value(*img, c, y, x),
{
    let w = img.width;
    let h = img.height;
    let ghost wi = w as int;
    let ghost hi = h as int;
    let mut out: Vec<i16> = Vec::new();
    let mut c: u32 = 0;
    while c < 3
        invariant
            0 <= c <= 3,
            img.wf(),
            w == img.width <= MAX_TARGET_DIM,
            h == img.height <= MAX_TARGET_DIM,
            wi == w as int,
            hi == h as int,
            out@.len() == c as int * (hi * wi),
            forall|c2: int, y2: int, x2: int|
                0 <= c2 < c && 0 <= y2 < hi && 0 <= x2 < wi ==> #[trigger] out@[c2 * (hi * wi) + y2
                    * wi + x2] == chw_bgr_value(*img, c2, y2, x2),
        decreases 3 - c,
    {
        let mut y: u32 = 0;
        while y < h
            invariant
                0 <= y <= h,
                0 <= c < 3,
                img.wf(),
                w == img.width <= MAX_TARGET_DIM,
                h == img.height <= MAX_TARGET_DIM,
                wi == w as int,
                hi == h as int,
                out@.len() == c as int * (hi * wi) + y as int * wi,
                forall|c2: int, y2: int, x2: int|
                    0 <= c2 < c && 0 <= y2 < hi && 0 <= x2 < wi ==> #[trigger] out@[c2 * (hi * wi)
                        + y2 * wi + x2] == chw_bgr_value(*img, c2, y2, x2),
                forall|y2: int, x2: int|
                    0 <= y2 < y && 0 <= x2 < wi ==> #[trigger] out@[c as int * (hi * wi) + y2 * wi
                        + x2] == chw_bgr_value(*img, c as int, y2, x2),
            decreases h - y,
        {
            let mut x: u32 = 0;
            while x < w
                invariant
                    0 <= x <= w,
                    0 <= y < h,
                    0 <= c < 3,
                    img.wf(),
                    w == img.width <= MAX_TARGET_DIM,
                    h == img.height <= MAX_TARGET_DIM,
                    wi == w as int,
                    hi == h as int,
                    out@.len() == c as int * (hi * wi) + y as int * wi + x as int,
                    forall|c2: int, y2: int, x2: int|
                        0 <= c2 < c && 0 <= y2 < hi && 0 <= x2 < wi ==> #[trigger] out@[c2 * (hi
                            * wi) + y2 * wi + x2] == chw_bgr_value(*img, c2, y2, x2),
                    forall|y2: int, x2: int|
                        0 <= y2 < y && 0 <= x2 < wi ==> #[trigger] out@[c as int * (hi * wi) + y2
                            * wi + x2] == chw_bgr_value(*img, c as int, y2, x2),
                    forall|x2: int|
                        0 <= x2 < x ==> #[trigger] out@[c as int * (hi * wi) + y as int * wi + x2]
                            == chw_bgr_value(*img, c as int, y as int, x2),
                decreases w - x,
            {
                proof {
                    assert(0 <= c as int * (hi * wi) + y as int * wi + x as int && c as int * (hi
                        * wi) + y as int * wi + x as int + 1 <= 3 * (hi * wi) && 3 * (hi * wi)
                        < 0x8000_0000int) by (nonlinear_arith)
                        requires
                            0 <= c as int,
                            (c as int) < 3,
                            0 <= y as int,
                            (y as int) < hi,
                            hi <= MAX_TARGET_DIM as int,
                            0 <= x as int,
                            (x as int) < wi,
                            wi <= MAX_TARGET_DIM as int,
                    ;
                }
                let v = img.get(x, y, 2 - c);
                out.push(2 * (v as i16) - 255);
                proof {
                    let ci = c as int;
                    let yi = y as int;
                    assert forall|x2: int| 0 <= x2 < x as int + 1 implies #[trigger] out@[ci * (hi
                        * wi) + yi * wi + x2] == chw_bgr_value(*img, ci, yi, x2) by {}
                    assert forall|y2: int, x2: int| 0 <= y2 < yi && 0 <= x2
                        < wi implies #[trigger] out@[ci * (hi * wi) + y2 * wi + x2]
                        == chw_bgr_value(*img, ci, y2, x2) by {
                        assert(0 <= ci * (hi * wi) + y2 * wi + x2 < ci * (hi * wi) + yi * wi
                            + x as int) by (nonlinear_arith)
                            requires
                                0 <= y2,
                                y2 < yi,
                                0 <= x2 < wi,
                                0 <= ci * (hi * wi),
                                0 <= x as int,
                        ;
                    }
                    assert forall|c2: int, y2: int, x2: int|
                        0 <= c2 < ci && 0 <= y2 < hi && 0 <= x2 < wi implies #[trigger] out@[c2 * (
                    hi * wi) + y2 * wi + x2] == chw_bgr_value(*img, c2, y2, x2) by {
                        assert(0 <= c2 * (hi * wi) + y2 * wi + x2 < ci * (hi * wi))
                            by (nonlinear_arith)
                            requires
                                0 <= c2,
                                c2 < ci,
                                0 <= y2,
                                y2 < hi,
                                0 <= x2 < wi,
                        ;
                        assert(ci * (hi * wi) <= ci * (hi * wi) + yi * wi + x as int)
                            by (nonlinear_arith)
                            requires
                                0 <= yi,
                                0 <= wi,
                                0 <= x as int,
                        ;
                    }
                }
                x += 1;
            }
            proof {
                assert(c as int * (hi * wi) + y as int * wi + wi == c as int * (hi * wi) + (
                y as int + 1) * wi) by (nonlinear_arith);
            }
            y += 1;
        }
        proof {
            assert(c as int * (hi * wi) + hi * wi == (c as int + 1) * (hi * wi))
                by (nonlinear_arith);
        }
        c += 1;
    }
    proof {
        assert(3 * (hi * wi) == 3 * img.width * img.height) by (nonlinear_arith)
            requires
                wi == img.width as int,
                hi == img.height as int,
        ;
    }
    out
}

} // verus!
