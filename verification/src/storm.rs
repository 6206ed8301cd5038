//! Classification of the archive layer's system error codes. The archive
//! itself is an external collaborator consumed as a byte-blob source and
//! sink; only the mapping from its raw error codes to named errors is logic
//! of this crate. The code values follow the system error numbers the
//! archive library reports.

use vstd::prelude::*;

verus! {

/// A raw system error code as the archive layer reports it.
#[derive(Clone, Copy, Debug, PartialEq, Eq, Structural)]
pub struct ErrorCode(pub u32);

/// The archive layer's errors, one variant per known code; anything else is
/// carried through unchanged.
#[derive(Clone, Copy, Debug, PartialEq, Eq, Structural)]
pub enum StormError {
    FileNotFound,
    AccessDenied,
    InvalidHandle,
    NotEnoughMemory,
    NotSupported,
    InvalidParameter,
    NegativeSeek,
    DiskFull,
    AlreadyExists,
    InsufficientBuffer,
    BadFormat,
    NoMoreFiles,
    HandleEof,
    CanNotComplete,
    FileCorrupt,
    UnknownCode(ErrorCode),
    NonUtf8,
    InteriorNul,
}

pub const ERROR_FILE_NOT_FOUND: u32 = 2;

pub const ERROR_ACCESS_DENIED: u32 = 5;

pub const ERROR_INVALID_HANDLE: u32 = 6;

pub const ERROR_NOT_ENOUGH_MEMORY: u32 = 8;

pub const ERROR_BAD_FORMAT: u32 = 11;

pub const ERROR_NO_MORE_FILES: u32 = 18;

pub const ERROR_HANDLE_EOF: u32 = 38;

pub const ERROR_NOT_SUPPORTED: u32 = 50;

pub const ERROR_INVALID_PARAMETER: u32 = 87;

pub const ERROR_DISK_FULL: u32 = 112;

pub const ERROR_INSUFFICIENT_BUFFER: u32 = 122;

pub const ERROR_NEGATIVE_SEEK: u32 = 131;

pub const ERROR_ALREADY_EXISTS: u32 = 183;

pub const ERROR_CAN_NOT_COMPLETE: u32 = 1003;

pub const ERROR_FILE_CORRUPT: u32 = 1392;

/// Which error a raw code stands for.
pub open spec fn storm_error_of(code: u32) -> StormError {
    if code == ERROR_FILE_NOT_FOUND {
        StormError::FileNotFound
    } else if code == ERROR_ACCESS_DENIED {
        StormError::AccessDenied
    } else if code == ERROR_INVALID_HANDLE {
        StormError::InvalidHandle
    } else if code == ERROR_NOT_ENOUGH_MEMORY {
        StormError::NotEnoughMemory
    } else if code == ERROR_NOT_SUPPORTED {
        StormError::NotSupported
    } else if code == ERROR_INVALID_PARAMETER {
        StormError::InvalidParameter
    } else if code == ERROR_NEGATIVE_SEEK {
        StormError::NegativeSeek
    } else if code == ERROR_DISK_FULL {
        StormError::DiskFull
    } else if code == ERROR_ALREADY_EXISTS {
        StormError::AlreadyExists
    } else if code == ERROR_INSUFFICIENT_BUFFER {
        StormError::InsufficientBuffer
    } else if code == ERROR_BAD_FORMAT {
        StormError::BadFormat
    } else if code == ERROR_NO_MORE_FILES {
        StormError::NoMoreFiles
    } else if code == ERROR_HANDLE_EOF {
        StormError::HandleEof
    } else if code == ERROR_CAN_NOT_COMPLETE {
        StormError::CanNotComplete
    } else if code == ERROR_FILE_CORRUPT {
        StormError::FileCorrupt
    } else {
        StormError::UnknownCode(ErrorCode(code))
    }
}

impl From<ErrorCode> for StormError {
    /// Classify a raw system error code.
    fn from(code: ErrorCode) -> (r: StormError) {
        match code.0 {
            ERROR_FILE_NOT_FOUND => StormError::FileNotFound,
            ERROR_ACCESS_DENIED => StormError::AccessDenied,
            ERROR_INVALID_HANDLE => StormError::InvalidHandle,
            ERROR_NOT_ENOUGH_MEMORY => StormError::NotEnoughMemory,
            ERROR_NOT_SUPPORTED => StormError::NotSupported,
            ERROR_INVALID_PARAMETER => StormError::InvalidParameter,
            ERROR_NEGATIVE_SEEK => StormError::NegativeSeek,
            ERROR_DISK_FULL => StormError::DiskFull,
            ERROR_ALREADY_EXISTS => StormError::AlreadyExists,
            ERROR_INSUFFICIENT_BUFFER => StormError::InsufficientBuffer,
            ERROR_BAD_FORMAT => StormError::BadFormat,
            ERROR_NO_MORE_FILES => StormError::NoMoreFiles,
            ERROR_HANDLE_EOF => StormError::HandleEof,
            ERROR_CAN_NOT_COMPLETE => StormError::CanNotComplete,
            ERROR_FILE_CORRUPT => StormError::FileCorrupt,
            other => StormError::UnknownCode(ErrorCode(other)),
        }
    }
}

impl vstd::std_specs::convert::FromSpecImpl<ErrorCode> for StormError {
    open spec fn obeys_from_spec() -> bool {
        true
    }

    open spec fn from_spec(code: ErrorCode) -> StormError {
        storm_error_of(code.0)
    }
}

} // verus!
