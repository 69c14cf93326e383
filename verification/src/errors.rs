use vstd::prelude::*;
use crate::document::Range;

verus! {

/// What can go wrong with a single document.
#[derive(Clone, Debug, PartialEq, Eq)]
pub enum DocumentError {
    DocumentNotFound { path: String },
    ManifestFileNotFound { dir: String },
    MemberManifestsFailed { dir: String },
    DocumentAlreadyStored { path: String },
    UnableToCreateFile { path: String, err: String },
    UnableToWriteFile { path: String, err: String },
    UnableToRemoveFile { path: String, err: String },
    InvalidPath { path: String },
    PermissionDenied { path: String },
    IOError { path: String, error: String },
    InvalidRange { range: Range },
}

/// What can go wrong while a project directory is located, mirrored or
/// rewritten between the source and the sandbox namespace.
#[derive(Clone, Debug, PartialEq, Eq)]
pub enum DirectoryError {
    ManifestDirNotFound,
    TempDirNotFound,
    CantExtractProjectName { dir: String },
    TempDirFailed,
    CanonicalizeFailed,
    CopyContentsFailed,
    StripPrefixError { path: String },
    UrlFromPathFailed { path: String },
    PathFromUrlFailed { url: String },
}

/// What can go wrong with the synchronisation state itself.
#[derive(Clone, Copy, Debug, PartialEq, Eq, Structural)]
pub enum SyncError {
    AlreadySyncing,
}

/// Any failure of the analyzer, by origin.
#[derive(Clone, Debug, PartialEq, Eq)]
pub enum MakepadAnalyzerError {
    DocumentError(DocumentError),
    SyncError(SyncError),
    DirectoryError(DirectoryError),
}

} // verus!
