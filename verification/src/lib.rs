//! Vision inference pipeline for face detection and recognition embeddings.
//!
//! The library covers the geometry and numeric logic of the pipeline: model
//! output discovery by tensor shape, aspect-preserving letterbox
//! preprocessing, anchor decoding of raw detector tensors, non-maximum
//! suppression, coordinate remapping between model-input space and original
//! image space, and L2 normalization of embedding vectors.
//!
//! All coordinates, scores and regression values are carried as fixed-point
//! integers in thousandths (see [`fixed`]), so every arithmetic step has an
//! exact contract. The surrounding service converts the model runtime's
//! `f32` tensors to and from this representation at the boundary.

pub mod config;
pub mod decode;
pub mod embedding;
pub mod error;
pub mod faces;
pub mod fixed;
pub mod nms;
pub mod pipeline;
pub mod raster;
pub mod requests;
pub mod resolver;
pub mod tensor;
