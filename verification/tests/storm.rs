use eudalloc::storm::{ErrorCode, StormError};
use eudalloc::storm::{ERROR_ACCESS_DENIED, ERROR_FILE_NOT_FOUND, ERROR_HANDLE_EOF};

#[test]
fn known_codes_classify() {
    assert_eq!(StormError::from(ErrorCode(ERROR_FILE_NOT_FOUND)), StormError::FileNotFound);
    assert_eq!(StormError::from(ErrorCode(ERROR_ACCESS_DENIED)), StormError::AccessDenied);
    assert_eq!(StormError::from(ErrorCode(ERROR_HANDLE_EOF)), StormError::HandleEof);
    assert_eq!(StormError::from(ErrorCode(112)), StormError::DiskFull);
    assert_eq!(StormError::from(ErrorCode(183)), StormError::AlreadyExists);
    assert_eq!(StormError::from(ErrorCode(1392)), StormError::FileCorrupt);
}

#[test]
fn unknown_codes_pass_through() {
    assert_eq!(StormError::from(ErrorCode(9999)), StormError::UnknownCode(ErrorCode(9999)));
    assert_eq!(StormError::from(ErrorCode(0)), StormError::UnknownCode(ErrorCode(0)));
}
