//! The kinds of failure that the library reports to its callers.
use vstd::prelude::*;

verus! {

/// Why an operation failed.
#[derive(Debug, PartialEq, Eq, Clone, Copy, Structural)]
pub enum ErrorKind {
    HomeMissing,
    HomeAlreadyExists,
    Busy,
    PackageNotFound,
    NoMatchingVersion,
    NoAssetForHost,
    NoInstallSpec,
    AlreadyInstalled,
    NotInstalled,
    UnsupportedUrl,
    DownloadFailed,
    ChecksumMismatch,
    UnsupportedArchive,
    UnsafeArchive,
    UnknownVariable,
    DatabaseError,
    IoError,
    DescriptorParse,
}

} // verus!
