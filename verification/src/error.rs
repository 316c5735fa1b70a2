//! Error taxonomy of the pipeline.
//!
//! Startup and per-request failures are reported as values of [`AppError`];
//! verified functions never panic. Variants carry their detail as plain
//! text so the type stays free of foreign error types; the service layer
//! converts its own errors to these variants at the boundary.

use vstd::prelude::*;
use vstd::string::StringExecFns;

verus! {

/// Tagged failure reported by the pipeline functions.
#[derive(Debug, Clone, PartialEq, Eq)]
pub enum AppError {
    /// A required part of a multipart request was absent.
    MissingMultipartField(String),
    /// The uploaded bytes could not be decoded as an image.
    ImageReadError(String),
    /// A model session failed to run or lacked a named output.
    InferenceError(String),
    /// A tensor had an unusable shape.
    ShapeError(String),
    /// The persistence collaborator failed.
    DatabaseError(String),
    /// Any other internal fault.
    Internal(String),
    /// The request itself was invalid.
    BadRequest(String),
}

impl AppError {
    /// The descriptive text each variant renders to.
    pub open spec fn message_spec(self) -> Seq<char> {
        match self {
            AppError::MissingMultipartField(s) => "Missing field in multipart form: "@ + s@,
            AppError::ImageReadError(s) => "Failed to read image data: "@ + s@,
            AppError::InferenceError(s) => "AI model inference failed: "@ + s@,
            AppError::ShapeError(s) => "Failed to parse shape: "@ + s@,
            AppError::DatabaseError(s) => "Database query failed: "@ + s@,
            AppError::Internal(s) => "An internal error occurred: "@ + s@,
            AppError::BadRequest(s) => "Invalid request: "@ + s@,
        }
    }

    /// Renders the error as one line of text.
    pub fn message(&self) -> (r: String)
        ensures
            r@ == self.message_spec(),
    {
        match self {
            AppError::MissingMultipartField(s) => String::from_str(
                "Missing field in multipart form: ",
            ).concat(s.as_str()),
            AppError::ImageReadError(s) => String::from_str("Failed to read image data: ").concat(
                s.as_str(),
            ),
            AppError::InferenceError(s) => String::from_str("AI model inference failed: ").concat(
                s.as_str(),
            ),
            AppError::ShapeError(s) => String::from_str("Failed to parse shape: ").concat(
                s.as_str(),
            ),
            AppError::DatabaseError(s) => String::from_str("Database query failed: ").concat(
                s.as_str(),
            ),
            AppError::Internal(s) => String::from_str("An internal error occurred: ").concat(
                s.as_str(),
            ),
            AppError::BadRequest(s) => String::from_str("Invalid request: ").concat(s.as_str()),
        }
    }

    /// Whether the error is the caller's fault, as opposed to an internal
    /// condition: the service maps these to a client-facing status. Bad
    /// requests, missing upload parts and undecodable image bytes all
    /// blame the request itself.
    pub open spec fn is_client_fault_spec(self) -> bool {
        self is BadRequest || self is MissingMultipartField || self is ImageReadError
    }

    /// Reports whether the error should surface as a bad request.
    pub fn is_client_fault(&self) -> (r: bool)
        ensures
            r == self.is_client_fault_spec(),
    {
        match self {
            AppError::BadRequest(_) => true,
            AppError::MissingMultipartField(_) => true,
            AppError::ImageReadError(_) => true,
            _ => false,
        }
    }
}

} // verus!
