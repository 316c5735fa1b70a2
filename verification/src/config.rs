//! Service configuration and model metadata.
//!
//! Loading the configuration from disk and environment is the service
//! layer's job; the types here carry the values, and the address helpers
//! render them exactly.

use vstd::prelude::*;
use vstd::string::StringExecFns;

verus! {

/// Complete service configuration.
#[derive(Debug, Clone)]
pub struct Configuration {
    pub font: FontConfig,
    pub models: ModelsConfig,
    pub database: DatabaseConfig,
    pub server: ServerConfig,
}

/// Where the annotation font lives.
#[derive(Debug, Clone)]
pub struct FontConfig {
    pub path: String,
}

/// The two model artifacts.
#[derive(Debug, Clone)]
pub struct ModelsConfig {
    pub detector: DetectorConfig,
    pub recognizer: RecognizerConfig,
}

/// Detector model artifact and its input geometry.
#[derive(Debug, Clone)]
pub struct DetectorConfig {
    pub path: String,
    pub strides: Vec<i32>,
    /// Input shape for the detector model `[height, width]`.
    pub input_shape: [u32; 2],
}

/// Recognizer model artifact and its square input size.
#[derive(Debug, Clone)]
pub struct RecognizerConfig {
    pub path: String,
    /// Input size for the recognizer model (square input).
    pub input_size: u32,
}

/// Connection settings of the persistence collaborator.
#[derive(Debug, Clone)]
pub struct DatabaseConfig {
    pub host: String,
    pub port: u16,
    pub username: String,
    pub password: String,
    pub namespace: String,
    pub database: String,
}

/// Listening address of the service.
#[derive(Debug, Clone)]
pub struct ServerConfig {
    pub host: String,
    pub port: u16,
}

impl Default for Configuration {
    /// The built-in configuration used when no file overrides it.
    fn default() -> (r: Self)
        ensures
            r.font.path@ == "DejaVuSansMono.ttf"@,
            r.models.detector.path@ == "models/scrfd_10g_bnkps.onnx"@,
            r.models.detector.strides@ == seq![8i32, 16i32, 32i32],
            r.models.detector.input_shape@ == seq![640u32, 640u32],
            r.models.recognizer.path@ == "models/arcface_r100.onnx"@,
            r.models.recognizer.input_size == 112u32,
            r.database.host@ == "127.0.0.1"@,
            r.database.port == 8000u16,
            r.database.username@ == "root"@,
            r.database.password@ == "root"@,
            r.database.namespace@ == "test"@,
            r.database.database@ == "test"@,
            r.server.host@ == "0.0.0.0"@,
            r.server.port == 3000u16,
    {
        Configuration {
            font: FontConfig { path: String::from_str("DejaVuSansMono.ttf") },
            models: ModelsConfig {
                detector: DetectorConfig {
                    path: String::from_str("models/scrfd_10g_bnkps.onnx"),
                    strides: vec![8, 16, 32],
                    input_shape: [640, 640],
                },
                recognizer: RecognizerConfig {
                    path: String::from_str("models/arcface_r100.onnx"),
                    input_size: 112,
                },
            },
            database: DatabaseConfig {
                host: String::from_str("127.0.0.1"),
                port: 8000,
                username: String::from_str("root"),
                password: String::from_str("root"),
                namespace: String::from_str("test"),
                database: String::from_str("test"),
            },
            server: ServerConfig { host: String::from_str("0.0.0.0"), port: 3000 },
        }
    }
}

/// Metadata extracted from a model at load time; immutable afterwards.
#[derive(Debug, Clone)]
pub struct ModelMetadata {
    pub input_name: String,
    /// Ordered input dimensions: batch, channels, height, width.
    pub input_shape: Vec<i64>,
    pub output_names: Vec<String>,
}

/// Detector metadata with the startup-resolved output mapping: for each
/// stride, the indices into `output_names` of the score, bounding-box and
/// keypoint tensors.
#[derive(Debug, Clone)]
pub struct DetectorMetadata {
    pub input_name: String,
    pub input_shape: Vec<i64>,
    pub output_names: Vec<String>,
    /// One entry per resolved stride: `(stride, (score_idx, bbox_idx, kps_idx))`.
    pub stride_output_mapping: Vec<(i32, (usize, usize, usize))>,
}

/// Combines basic detector metadata with the resolved output mapping.
pub fn create_detector_metadata_with_mappings(
    basic_metadata: ModelMetadata,
    stride_output_mapping: Vec<(i32, (usize, usize, usize))>,
) -> (r: DetectorMetadata)
    ensures
        r.input_name == basic_metadata.input_name,
        r.input_shape == basic_metadata.input_shape,
        r.output_names == basic_metadata.output_names,
        r.stride_output_mapping == stride_output_mapping,
{
    DetectorMetadata {
        input_name: basic_metadata.input_name,
        input_shape: basic_metadata.input_shape,
        output_names: basic_metadata.output_names,
        stride_output_mapping,
    }
}

/// The character a single decimal digit renders to.
pub open spec fn digit_char(d: int) -> char {
    if d == 0 {
        '0'
    } else if d == 1 {
        '1'
    } else if d == 2 {
        '2'
    } else if d == 3 {
        '3'
    } else if d == 4 {
        '4'
    } else if d == 5 {
        '5'
    } else if d == 6 {
        '6'
    } else if d == 7 {
        '7'
    } else if d == 8 {
        '8'
    } else {
        '9'
    }
}

/// Decimal rendering of a natural number, most significant digit first,
/// without leading zeros (`0` renders as `"0"`).
pub open spec fn decimal_spec(n: nat) -> Seq<char>
    decreases n,
{
    if n < 10 {
        seq![digit_char(n as int)]
    } else {
        decimal_spec(n / 10).push(digit_char((n % 10) as int))
    }
}

/// The literal for one decimal digit.
fn digit_str(d: u64) -> (r: &'static str)
    requires
        d < 10,
    ensures
        r@ == seq![digit_char(d as int)],
{
    proof {
        reveal_strlit("0");
        reveal_strlit("1");
        reveal_strlit("2");
        reveal_strlit("3");
        reveal_strlit("4");
        reveal_strlit("5");
        reveal_strlit("6");
        reveal_strlit("7");
        reveal_strlit("8");
        reveal_strlit("9");
    }
    if d == 0 {
        "0"
    } else if d == 1 {
        "1"
    } else if d == 2 {
        "2"
    } else if d == 3 {
        "3"
    } else if d == 4 {
        "4"
    } else if d == 5 {
        "5"
    } else if d == 6 {
        "6"
    } else if d == 7 {
        "7"
    } else if d == 8 {
        "8"
    } else {
        "9"
    }
}

/// Renders a number in decimal.
pub fn decimal_string(n: u64) -> (r: String)
    ensures
        r@ == decimal_spec(n as nat),
    decreases n,
{
    if n < 10 {
        String::from_str(digit_str(n))
    } else {
        let prefix = decimal_string(n / 10);
        prefix.concat(digit_str(n % 10))
    }
}

impl Configuration {
    /// The `host:port` address of the persistence collaborator.
    pub fn database_url(&self) -> (r: String)
        ensures
            r@ == self.database.host@ + ":"@ + decimal_spec(self.database.port as nat),
    {
        let mut url = self.database.host.clone();
        url.append(":");
        let port = decimal_string(self.database.port as u64);
        url.append(port.as_str());
        url
    }

    /// The `host:port` address the server binds to.
    pub fn server_address(&self) -> (r: String)
        ensures
            r@ == self.server.host@ + ":"@ + decimal_spec(self.server.port as nat),
    {
        let mut addr = self.server.host.clone();
        addr.append(":");
        let port = decimal_string(self.server.port as u64);
        addr.append(port.as_str());
        addr
    }
}

} // verus!
