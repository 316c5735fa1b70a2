//! Letterbox geometry, image decoding, cropping and tensor layout.

use recognizr::faces::{DetectedFace, MAX_IMAGE_DIMENSION, X_OFFSET, Y_OFFSET};
use recognizr::raster::{
    compose_letterbox, crop, letterbox_dims, load_rgb_from_memory, preprocess_image_topleft,
    stretch_exact, PixelBuffer, LETTERBOX_FILL,
};
use recognizr::tensor::chw_bgr_numerators;

fn solid(width: u32, height: u32, rgb: [u8; 3]) -> PixelBuffer {
    let mut data = Vec::new();
    for _ in 0..width * height {
        data.extend_from_slice(&rgb);
    }
    PixelBuffer { width, height, data }
}

#[test]
fn letterbox_dims_wide_image() {
    // 1000x500 into 640x640: ratio 0.64, so 640x320.
    assert_eq!(letterbox_dims(1000, 500, 640, 640), (640, 320));
}

#[test]
fn letterbox_dims_tall_image() {
    // 500x1000 into 640x640: 320x640.
    assert_eq!(letterbox_dims(500, 1000, 640, 640), (320, 640));
}

#[test]
fn letterbox_dims_rounds_to_nearest() {
    // 3000x1000 into 640x640: ratio 640/3000, height 213.33 rounds down.
    assert_eq!(letterbox_dims(3000, 1000, 640, 640), (640, 213));
    // 3000x1100: height 234.66 rounds up.
    assert_eq!(letterbox_dims(3000, 1100, 640, 640), (640, 235));
}

#[test]
fn letterbox_round_trip_reconstructs_coordinate() {
    // Letterbox 1000x500 into 640x640, map a point forward at the exact
    // ratio and back through scale_to_original (offset zero): it lands
    // within one fixed-point step of where it started.
    let (new_w, new_h) = letterbox_dims(1000, 500, 640, 640);
    assert_eq!((new_w, new_h), (640, 320));
    let q: i64 = 123_456;
    let p = recognizr::fixed::round_div(q * new_w as i64, 1000);
    let mut f = DetectedFace { bbox: [p, 0, p, 0], kps: [0; 10], score: 500 };
    f.scale_to_original(1000, new_w, 500, new_h, 0, 0);
    assert!((f.bbox[0] - q).abs() <= 1);
}

#[test]
fn calibration_offsets_are_fifty_pixels() {
    assert_eq!(X_OFFSET, 50_000);
    assert_eq!(Y_OFFSET, 50_000);
    assert_eq!(MAX_IMAGE_DIMENSION, 8192);
}

#[test]
fn scale_to_original_applies_scale_then_offset() {
    let mut f = DetectedFace { bbox: [64_000, 32_000, 128_000, 64_000], kps: [0; 10], score: 900 };
    // Original 1000x500 letterboxed to 640x320: scale is 1000/640 = 500/320
    // on both axes; offsets shift by 50 pixels.
    f.scale_to_original(1000, 640, 500, 320, X_OFFSET, Y_OFFSET);
    assert_eq!(f.bbox, [100_000 - 50_000, 50_000 - 50_000, 200_000 - 50_000, 100_000 - 50_000]);
}

#[test]
fn validate_bounds_rejects_out_of_image_box() {
    let f = DetectedFace { bbox: [-5000, -5000, 10_000, 10_000], kps: [0; 10], score: 900 };
    assert!(!f.validate_bounds(100, 100));
    let g = DetectedFace { bbox: [5000, 5000, 90_000, 90_000], kps: [0; 10], score: 900 };
    assert!(g.validate_bounds(100, 100));
    // Degenerate box: rejected even inside the image.
    let d = DetectedFace { bbox: [5000, 5000, 5000, 9000], kps: [0; 10], score: 900 };
    assert!(!d.validate_bounds(100, 100));
}

#[test]
fn safe_crop_clamps_and_guarantees_minimum() {
    let f = DetectedFace { bbox: [-5000, -5000, 10_000, 10_000], kps: [0; 10], score: 900 };
    assert_eq!(f.get_safe_crop_coords(100, 100), (0, 0, 10, 10));
    let g = DetectedFace { bbox: [95_000, 95_000, 105_000, 99_000], kps: [0; 10], score: 900 };
    assert_eq!(g.get_safe_crop_coords(100, 100), (95, 95, 5, 4));
    // A fully degenerate box still yields a 1x1 region.
    let d = DetectedFace { bbox: [40_000, 40_000, 40_000, 40_000], kps: [0; 10], score: 900 };
    assert_eq!(d.get_safe_crop_coords(100, 100), (40, 40, 1, 1));
}

#[test]
fn square_crop_pads_and_clamps() {
    let f = DetectedFace { bbox: [10_000, 10_000, 50_000, 50_000], kps: [0; 10], score: 900 };
    // 40x40 face grown by 0.3 to 52, centered on (30, 30).
    assert_eq!(f.get_square_crop_coords(100, 100, 300), (4, 4, 52));
    // Near the border the square slides back inside.
    let g = DetectedFace { bbox: [80_000, 80_000, 99_000, 99_000], kps: [0; 10], score: 900 };
    let (x, y, s) = g.get_square_crop_coords(100, 100, 300);
    assert_eq!((x, y, s), (75, 75, 25));
}

#[test]
fn compose_letterbox_fills_right_and_bottom_with_gray() {
    let img = solid(2, 1, [10, 20, 30]);
    let canvas = compose_letterbox(&img, 3, 2);
    assert_eq!(canvas.width, 3);
    assert_eq!(canvas.height, 2);
    assert_eq!((canvas.get(0, 0, 0), canvas.get(0, 0, 1), canvas.get(0, 0, 2)), (10, 20, 30));
    assert_eq!((canvas.get(1, 0, 0), canvas.get(1, 0, 1), canvas.get(1, 0, 2)), (10, 20, 30));
    for (x, y) in [(2, 0), (0, 1), (1, 1), (2, 1)] {
        for c in 0..3 {
            assert_eq!(canvas.get(x, y, c), LETTERBOX_FILL);
        }
    }
}

#[test]
fn crop_copies_the_clamped_rectangle() {
    // 2x2 image with distinct pixels.
    let data = vec![
        1, 2, 3, 4, 5, 6, // row 0: (1,2,3) (4,5,6)
        7, 8, 9, 10, 11, 12, // row 1
    ];
    let img = PixelBuffer { width: 2, height: 2, data };
    let c = crop(&img, 1, 0, 5, 5);
    assert_eq!((c.width, c.height), (1, 2));
    assert_eq!((c.get(0, 0, 0), c.get(0, 0, 1), c.get(0, 0, 2)), (4, 5, 6));
    assert_eq!((c.get(0, 1, 0), c.get(0, 1, 1), c.get(0, 1, 2)), (10, 11, 12));
}

#[test]
fn tensor_layout_is_nchw_bgr_with_numerators() {
    // One pixel (r, g, b) = (255, 0, 114): plane 0 carries blue, plane 2
    // red, each as 2 v - 255.
    let img = solid(1, 1, [255, 0, 114]);
    let t = chw_bgr_numerators(&img);
    assert_eq!(t.len(), 3);
    assert_eq!(t[0], 2 * 114 - 255);
    assert_eq!(t[1], -255);
    assert_eq!(t[2], 255);
}

#[test]
fn tensor_layout_plane_order_over_pixels() {
    // 2x1 image: pixels (10,20,30) and (40,50,60). Planes are laid out
    // whole-image at a time: blue plane first.
    let data = vec![10, 20, 30, 40, 50, 60];
    let img = PixelBuffer { width: 2, height: 1, data };
    let t = chw_bgr_numerators(&img);
    assert_eq!(t.len(), 6);
    assert_eq!(&t[0..2], &[2 * 30 - 255, 2 * 60 - 255]);
    assert_eq!(&t[2..4], &[2 * 20 - 255, 2 * 50 - 255]);
    assert_eq!(&t[4..6], &[2 * 10 - 255, 2 * 40 - 255]);
}

#[test]
fn decode_rejects_garbage_and_accepts_png() {
    let garbage = vec![1, 2, 3, 4];
    assert!(load_rgb_from_memory(&garbage).is_err());

    // Encode a tiny 2x1 PNG in memory and decode it back.
    let rgb = image::RgbImage::from_raw(2, 1, vec![10, 20, 30, 40, 50, 60]).unwrap();
    let mut bytes = std::io::Cursor::new(Vec::new());
    image::DynamicImage::ImageRgb8(rgb)
        .write_to(&mut bytes, image::ImageFormat::Png)
        .unwrap();
    let buf = load_rgb_from_memory(&bytes.into_inner()).unwrap();
    assert_eq!((buf.width, buf.height), (2, 1));
    assert_eq!(buf.data, vec![10, 20, 30, 40, 50, 60]);
}

#[test]
fn preprocess_puts_content_top_left() {
    // A uniform 4x2 red image into a 4x4 target: resized to 4x2 at the
    // top-left, gray below. The triangle filter keeps a uniform image
    // uniform.
    let img = solid(4, 2, [200, 0, 0]);
    let (canvas, new_w, new_h) = preprocess_image_topleft(&img, 4, 4);
    assert_eq!((new_w, new_h), (4, 2));
    assert_eq!((canvas.width, canvas.height), (4, 4));
    assert_eq!((canvas.get(0, 0, 0), canvas.get(0, 0, 1), canvas.get(0, 0, 2)), (200, 0, 0));
    assert_eq!((canvas.get(3, 1, 0), canvas.get(3, 1, 1), canvas.get(3, 1, 2)), (200, 0, 0));
    for c in 0..3 {
        assert_eq!(canvas.get(0, 2, c), LETTERBOX_FILL);
        assert_eq!(canvas.get(3, 3, c), LETTERBOX_FILL);
    }
}

#[test]
fn preprocess_resamples_before_padding() {
    // An 8x4 uniform image into a 4x4 target resamples to 4x2; the two
    // bottom rows of the canvas must be padding, which would not hold if
    // the image were pasted unresized.
    let img = solid(8, 4, [0, 0, 250]);
    let (canvas, new_w, new_h) = preprocess_image_topleft(&img, 4, 4);
    assert_eq!((new_w, new_h), (4, 2));
    assert_eq!((canvas.get(0, 0, 0), canvas.get(0, 0, 2)), (0, 250));
    assert_eq!((canvas.get(3, 1, 0), canvas.get(3, 1, 2)), (0, 250));
    for y in 2..4 {
        for c in 0..3 {
            assert_eq!(canvas.get(0, y, c), LETTERBOX_FILL);
            assert_eq!(canvas.get(3, y, c), LETTERBOX_FILL);
        }
    }
}

#[test]
fn stretch_exact_ignores_aspect_ratio() {
    // A uniform 6x2 image stretched to a 3x3 square: the full content
    // fills the square (no letterbox padding anywhere), and a uniform
    // image stays uniform under the triangle filter.
    let img = solid(6, 2, [40, 80, 120]);
    let out = stretch_exact(&img, 3);
    assert_eq!((out.width, out.height), (3, 3));
    for y in 0..3 {
        for x in 0..3 {
            assert_eq!((out.get(x, y, 0), out.get(x, y, 1), out.get(x, y, 2)), (40, 80, 120));
        }
    }
}
