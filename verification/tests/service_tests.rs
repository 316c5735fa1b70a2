//! Configuration, error rendering, request validation and output-role
//! resolution.

use recognizr::config::{
    create_detector_metadata_with_mappings, decimal_string, Configuration, ModelMetadata,
};
use recognizr::error::AppError;
use recognizr::requests::{
    resolve_match_name, validate_enroll_bbox, validate_image_bytes, validate_image_dims,
    validate_person_name, GalleryPerson, MAX_IMAGE_SIZE,
};
use recognizr::resolver::{match_outputs_by_shape, resolve_output_mapping};

fn bad_request_message(r: Result<(), AppError>) -> String {
    match r {
        Err(AppError::BadRequest(m)) => m,
        other => panic!("expected a bad request, got {:?}", other),
    }
}

#[test]
fn default_configuration_matches_documented_values() {
    let c = Configuration::default();
    assert_eq!(c.font.path, "DejaVuSansMono.ttf");
    assert_eq!(c.models.detector.path, "models/scrfd_10g_bnkps.onnx");
    assert_eq!(c.models.detector.strides, vec![8, 16, 32]);
    assert_eq!(c.models.detector.input_shape, [640, 640]);
    assert_eq!(c.models.recognizer.path, "models/arcface_r100.onnx");
    assert_eq!(c.models.recognizer.input_size, 112);
    assert_eq!(c.database.port, 8000);
    assert_eq!(c.server.port, 3000);
}

#[test]
fn addresses_render_as_host_colon_port() {
    let c = Configuration::default();
    assert_eq!(c.database_url(), "127.0.0.1:8000");
    assert_eq!(c.server_address(), "0.0.0.0:3000");
}

#[test]
fn decimal_rendering() {
    assert_eq!(decimal_string(0), "0");
    assert_eq!(decimal_string(7), "7");
    assert_eq!(decimal_string(10), "10");
    assert_eq!(decimal_string(65535), "65535");
    assert_eq!(decimal_string(1000000), "1000000");
}

#[test]
fn metadata_carries_over_into_detector_metadata() {
    let basic = ModelMetadata {
        input_name: "input.1".to_string(),
        input_shape: vec![1, 3, 640, 640],
        output_names: vec!["a".to_string(), "b".to_string(), "c".to_string()],
    };
    let mapping = vec![(8, (0, 1, 2))];
    let d = create_detector_metadata_with_mappings(basic, mapping.clone());
    assert_eq!(d.input_name, "input.1");
    assert_eq!(d.input_shape, vec![1, 3, 640, 640]);
    assert_eq!(d.output_names.len(), 3);
    assert_eq!(d.stride_output_mapping, mapping);
}

#[test]
fn error_messages_render_with_their_detail() {
    let e = AppError::BadRequest("no face".to_string());
    assert_eq!(e.message(), "Invalid request: no face");
    assert!(e.is_client_fault());
    let e = AppError::MissingMultipartField("image".to_string());
    assert_eq!(e.message(), "Missing field in multipart form: image");
    assert!(e.is_client_fault());
    let e = AppError::ImageReadError("truncated".to_string());
    assert_eq!(e.message(), "Failed to read image data: truncated");
    assert!(e.is_client_fault());
    let e = AppError::Internal("bug".to_string());
    assert!(!e.is_client_fault());
    let e = AppError::InferenceError("shape".to_string());
    assert_eq!(e.message(), "AI model inference failed: shape");
    let e = AppError::ShapeError("rank".to_string());
    assert_eq!(e.message(), "Failed to parse shape: rank");
    let e = AppError::DatabaseError("down".to_string());
    assert_eq!(e.message(), "Database query failed: down");
    let e = AppError::Internal("bug".to_string());
    assert_eq!(e.message(), "An internal error occurred: bug");
}

#[test]
fn image_byte_validation() {
    assert!(validate_image_bytes(1).is_ok());
    assert!(validate_image_bytes(MAX_IMAGE_SIZE).is_ok());
    assert_eq!(bad_request_message(validate_image_bytes(0)), "Image data is empty");
    assert_eq!(
        bad_request_message(validate_image_bytes(MAX_IMAGE_SIZE + 1)),
        "Image too large (max 15 MB)"
    );
}

#[test]
fn image_dimension_validation() {
    assert!(validate_image_dims(32, 32).is_ok());
    assert!(validate_image_dims(8192, 8192).is_ok());
    assert_eq!(bad_request_message(validate_image_dims(31, 100)), "Image too small (min 32x32)");
    assert_eq!(
        bad_request_message(validate_image_dims(100, 8193)),
        "Image too large (max 8192x8192)"
    );
}

#[test]
fn name_validation() {
    assert!(validate_person_name(&"Ada".to_string()).is_ok());
    assert_eq!(bad_request_message(validate_person_name(&"".to_string())), "Name cannot be empty");
    assert_eq!(
        bad_request_message(validate_person_name(&"  \t ".to_string())),
        "Name cannot be empty"
    );
    // Unicode whitespace counts as blank too, as `trim` would see it.
    assert_eq!(
        bad_request_message(validate_person_name(&"\u{00A0}\u{2003}".to_string())),
        "Name cannot be empty"
    );
    assert!(validate_person_name(&"\u{00C5}sa".to_string()).is_ok());
    let long = "x".repeat(101);
    assert_eq!(
        bad_request_message(validate_person_name(&long)),
        "Name too long (max 100 characters)"
    );
    assert!(validate_person_name(&"x".repeat(100)).is_ok());
}

#[test]
fn enroll_bbox_validation() {
    let inside = [10_000, 10_000, 50_000, 50_000];
    assert!(validate_enroll_bbox(&inside, 100, 100).is_ok());
    let outside = [-5000, 10_000, 50_000, 50_000];
    assert_eq!(
        bad_request_message(validate_enroll_bbox(&outside, 100, 100)),
        "Bounding box coordinates are out of image bounds"
    );
    let inverted = [50_000, 10_000, 10_000, 50_000];
    assert_eq!(
        bad_request_message(validate_enroll_bbox(&inverted, 100, 100)),
        "Invalid bounding box: x1 must be < x2 and y1 must be < y2"
    );
}

#[test]
fn match_name_resolution() {
    assert_eq!(resolve_match_name("Ada".to_string(), 450), "Ada");
    assert_eq!(resolve_match_name("Ada".to_string(), 449), "Unknown");
}

#[test]
fn gallery_person_holds_name_and_image() {
    let p = GalleryPerson { name: "Ada".to_string(), image_base64: "aGk=".to_string() };
    assert_eq!(p.name, "Ada");
    assert_eq!(p.image_base64, "aGk=");
}

#[test]
fn resolver_classifies_by_shape() {
    // 640x640 at stride 8: 80 * 80 * 2 = 12800 anchors; channel count
    // tells the roles apart, first match in output order wins.
    let shapes = vec![
        vec![12800, 10],
        vec![12800, 1],
        vec![12800, 4],
        vec![3200, 1],
        vec![3200, 4],
        vec![3200, 10],
    ];
    assert_eq!(match_outputs_by_shape(&shapes, 8, 640, 640), Some((1, 2, 0)));
    assert_eq!(match_outputs_by_shape(&shapes, 16, 640, 640), Some((3, 4, 5)));
    assert_eq!(match_outputs_by_shape(&shapes, 32, 640, 640), None);
}

#[test]
fn resolver_ignores_non_rank_two_shapes() {
    let shapes = vec![vec![12800, 1, 1], vec![12800], vec![12800, 1], vec![12800, 4], vec![
        12800, 10,
    ]];
    assert_eq!(match_outputs_by_shape(&shapes, 8, 640, 640), Some((2, 3, 4)));
}

#[test]
fn resolution_succeeds_for_complete_strides() {
    let shapes = vec![
        vec![12800, 1],
        vec![12800, 4],
        vec![12800, 10],
        vec![3200, 1],
        vec![3200, 4],
        vec![3200, 10],
    ];
    let mapping = resolve_output_mapping(&shapes, &vec![8, 16], 640, 640).unwrap();
    assert_eq!(mapping, vec![(8, (0, 1, 2)), (16, (3, 4, 5))]);
}

#[test]
fn resolution_fails_for_missing_stride() {
    let shapes = vec![vec![12800, 1], vec![12800, 4], vec![12800, 10]];
    let err = resolve_output_mapping(&shapes, &vec![8, 16], 640, 640).unwrap_err();
    match err {
        AppError::BadRequest(m) => {
            assert_eq!(m, "Could not find matching outputs for stride 16")
        },
        other => panic!("unexpected error {:?}", other),
    }
}

#[test]
fn resolution_fails_for_bad_dimensions() {
    let shapes: Vec<Vec<usize>> = Vec::new();
    let err = resolve_output_mapping(&shapes, &vec![8], 640, 0).unwrap_err();
    match err {
        AppError::BadRequest(m) => assert_eq!(m, "Invalid target dimensions: 0x640"),
        other => panic!("unexpected error {:?}", other),
    }
    let err = resolve_output_mapping(&shapes, &Vec::new(), 640, 640).unwrap_err();
    match err {
        AppError::BadRequest(m) => {
            assert_eq!(m, "No valid output mappings found for any stride")
        },
        other => panic!("unexpected error {:?}", other),
    }
}
