//! The error kinds the library reports.

use vstd::prelude::*;

verus! {

/// Everything that can go wrong on the undelete read path.
///
/// Paths travel through the library as raw bytes, so the variants that
/// carry a path carry it as bytes too.
#[derive(Debug, Clone, PartialEq, Eq)]
pub enum Error {
    /// An argument or selection the caller handed in is unusable.
    InputValidation(String),
    /// The source path does not exist.
    NotFound(Vec<u8>),
    /// The directory is not a mount point of any block device.
    MountNotFound(Vec<u8>),
    /// The boot sector classifies as a file system other than NTFS;
    /// the payload is that file system's name.
    UnsupportedFileSystem(String),
    /// The whole medium was scanned without finding an MFT record signature.
    SignatureNotFound,
    /// A record buffer is structurally broken.
    InvalidRecord,
    /// A sector's check bytes do not match the update-sequence check value.
    FixupMismatch,
    /// A positioned read of one extent failed during reconstruction.
    ExtentRead { lcn: u64, clusters: u64, cause: String },
    /// The selected record has no data attribute left to reconstruct.
    EmptyData,
    /// Any other positional read failure.
    IoError(String),
}

} // verus!
