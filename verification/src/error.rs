//! The one error type of the library.

use vstd::prelude::*;

verus! {

/// The kinds of failure that callers tell apart.
#[derive(Clone, Copy, Debug, PartialEq, Eq, Structural)]
pub enum ErrorKind {
    /// The path names no file.
    NotFound,
    /// The platform refused access to the file.
    PermissionDenied,
    /// The bytes read are not valid UTF-8 text.
    InvalidData,
    /// Any other failure of the platform: a full disk, an interrupted call.
    Other,
}

/// A failed file operation: its kind and, where the platform reported one, the
/// platform's own error code.
#[derive(Clone, Copy, Debug, PartialEq, Eq, Structural)]
pub struct IoError {
    pub kind: ErrorKind,
    pub os_code: Option<i32>,
}

impl IoError {
    /// The error for bytes that are not valid UTF-8 text.
    pub open spec fn spec_invalid_text() -> IoError {
        IoError { kind: ErrorKind::InvalidData, os_code: None }
    }

    /// The error for bytes that are not valid UTF-8 text. It carries no platform
    /// code: the platform read the bytes without complaint.
    #[verifier::when_used_as_spec(spec_invalid_text)]
    pub fn invalid_text() -> (error: IoError)
        ensures
            error == IoError::spec_invalid_text(),
    {
        IoError { kind: ErrorKind::InvalidData, os_code: None }
    }
}

} // verus!
