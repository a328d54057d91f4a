//! The programmatic sync API surface: its request types and its error
//! taxonomy, plus the permission gate that guards every sync request.

use vstd::prelude::*;

verus! {

/// Marker type for the handler that serves the sync API.
pub struct DossierApiHandler;

/// Errors surfaced by the sync API.
#[derive(Clone, Copy, PartialEq, Eq, Structural, Debug)]
pub enum ApiError {
    /// The path's leading segment named no known project.
    ProjectNotFound,
    /// A name contained an invalid character. Currently, the only disallowed
    /// character is `/`; an empty name is likewise invalid.
    InvalidName,
    /// An absolute path was expected, but the path provided did not include a
    /// leading `/`.
    InvalidPath,
    /// An attempt at creating a file failed because a file already existed.
    AlreadyExists,
    /// The file was deleted during the operation.
    Deleted,
}

impl ApiError {
    /// A human-readable description of the error.
    pub fn message(&self) -> (r: &'static str)
        ensures
            self is ProjectNotFound ==> r@ == "project not found"@,
            self is InvalidName ==> r@ == "names must not contain '/'"@,
            self is InvalidPath ==> r@ == "all paths must start with a leading '/'"@,
            self is AlreadyExists ==> r@ == "a file already exists at the path provided"@,
            self is Deleted ==> r@ == "the file was deleted during the operation"@,
    {
        match self {
            ApiError::ProjectNotFound => "project not found",
            ApiError::InvalidName => "names must not contain '/'",
            ApiError::InvalidPath => "all paths must start with a leading '/'",
            ApiError::AlreadyExists => "a file already exists at the path provided",
            ApiError::Deleted => "the file was deleted during the operation",
        }
    }
}

/// Request: list every stored file under a path prefix, with its digest.
pub struct ListFiles {
    pub path: String,
}

/// Request: delete the file at a path.
pub struct DeleteFile {
    pub path: String,
}

/// Request: append one chunk of a file's bytes.  `start` asks the store to
/// begin the file afresh (create, or truncate what is there); `finished`
/// marks the final chunk, upon which the store records the digest of the
/// accumulated contents and returns it.
pub struct WriteFileData {
    pub path: String,
    pub data: Vec<u8>,
    pub start: bool,
    pub finished: bool,
}

} // verus!
