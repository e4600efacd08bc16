use rs_wc::counter::WcCounter;
use rs_wc::error::{OpenFailure, WcError, WcResult};
use std::io;

#[test]
fn test_count_file_not_found() {
    let cause = io::Error::from(io::ErrorKind::NotFound);
    let result: WcResult<WcCounter> = Err(WcError::from_open(cause, "/nonexistent/file"));
    assert!(matches!(result, Err(WcError::FileNotFound(_))));
}

#[test]
fn test_error_conversions() {
    let io_error = io::Error::new(io::ErrorKind::NotFound, "test error");
    let wc_error: WcError = io_error.into();
    assert!(matches!(wc_error, WcError::Io(_)));

    // Use a truly invalid UTF-8 sequence: an overlong encoding of the NUL byte
    let utf8_error = std::str::from_utf8(&[0xC0, 0x80]).unwrap_err();
    let wc_error: WcError = utf8_error.into();
    assert!(matches!(wc_error, WcError::Utf8(_)));
}

#[test]
fn test_custom_errors() {
    let not_found = WcError::file_not_found("test.txt");
    assert_eq!(not_found.to_string(), "File not found: test.txt");

    let denied = WcError::permission_denied("/root/file");
    assert_eq!(denied.to_string(), "Permission denied: /root/file");
}

#[test]
fn invalid_argument_message() {
    let error = WcError::invalid_argument("no such format");
    assert!(matches!(&error, WcError::InvalidArgument(text) if text == "no such format"));
    assert_eq!(error.to_string(), "Invalid argument: no such format");
}

#[test]
fn mmap_message() {
    let error = WcError::Mmap("cannot map".to_string());
    assert_eq!(error.to_string(), "Memory map error: cannot map");
}

#[test]
fn io_message_has_headline_and_cause() {
    let error = WcError::Io(io::Error::new(io::ErrorKind::Other, "disk on fire"));
    assert_eq!(error.to_string(), "I/O error: disk on fire");
}

#[test]
fn utf8_message_has_headline() {
    let cause = std::str::from_utf8(&[0xff]).unwrap_err();
    let expected = format!("Invalid UTF-8 sequence: {}", cause);
    assert_eq!(WcError::Utf8(cause).to_string(), expected);
}

#[test]
fn json_message_has_headline() {
    let cause = serde_json::from_str::<serde_json::Value>("{").unwrap_err();
    let expected = format!("JSON serialization error: {}", cause);
    let error: WcError = cause.into();
    assert!(matches!(error, WcError::Json(_)));
    assert_eq!(error.to_string(), expected);
}

#[test]
fn open_failed_not_found_names_the_file() {
    let cause = io::Error::new(io::ErrorKind::Other, "whatever");
    let error = WcError::open_failed(OpenFailure::NotFound, cause, "a.txt");
    assert!(matches!(error, WcError::FileNotFound(name) if name == "a.txt"));
}

#[test]
fn open_failed_permission_denied_names_the_file() {
    let cause = io::Error::new(io::ErrorKind::Other, "whatever");
    let error = WcError::open_failed(OpenFailure::PermissionDenied, cause, "b.txt");
    assert!(matches!(error, WcError::PermissionDenied(name) if name == "b.txt"));
}

#[test]
fn open_failed_other_keeps_the_cause() {
    let cause = io::Error::new(io::ErrorKind::TimedOut, "too slow");
    let error = WcError::open_failed(OpenFailure::Other, cause, "c.txt");
    assert!(matches!(&error, WcError::Io(e) if e.kind() == io::ErrorKind::TimedOut));
    assert_eq!(error.to_string(), "I/O error: too slow");
}

#[test]
fn from_open_tells_the_kinds_apart() {
    let missing = WcError::from_open(io::Error::new(io::ErrorKind::NotFound, "x"), "gone.txt");
    assert!(matches!(missing, WcError::FileNotFound(name) if name == "gone.txt"));

    let refused =
        WcError::from_open(io::Error::new(io::ErrorKind::PermissionDenied, "x"), "secret.txt");
    assert!(matches!(refused, WcError::PermissionDenied(name) if name == "secret.txt"));

    let other = WcError::from_open(io::Error::new(io::ErrorKind::InvalidData, "x"), "odd.txt");
    assert!(matches!(other, WcError::Io(e) if e.kind() == io::ErrorKind::InvalidData));
}
