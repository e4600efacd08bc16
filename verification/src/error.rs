//! The failures that counting and reporting can end in.
use vstd::prelude::*;
use vstd::std_specs::convert::FromSpecImpl;
use vstd::string::{to_string_from_display_ensures, StringExecFns};

verus! {

/// `std::io::Error`: carried through as it came, never looked into here.
#[verifier::external_type_specification]
#[verifier::external_body]
pub struct ExIoError(std::io::Error);

/// `core::str::Utf8Error`: carried through as it came.
#[verifier::external_type_specification]
#[verifier::external_body]
pub struct ExUtf8Error(core::str::Utf8Error);

/// `serde_json::Error`: carried through as it came.
#[verifier::external_type_specification]
#[verifier::external_body]
pub struct ExJsonError(serde_json::Error);

/// Why a source could not be counted or a report not written.
#[derive(Debug)]
pub enum WcError {
    /// Reading or mapping a source failed.
    Io(std::io::Error),
    /// Bytes were not valid UTF-8 where text was required.
    Utf8(core::str::Utf8Error),
    /// An argument was not acceptable.
    InvalidArgument(String),
    /// The named source does not exist.
    FileNotFound(String),
    /// The named source may not be read.
    PermissionDenied(String),
    /// The report could not be written as JSON.
    Json(serde_json::Error),
    /// The named source could not be mapped into memory.
    Mmap(String),
}

pub type WcResult<T> = Result<T, WcError>;

/// How opening a source failed, as far as the report tells failures apart.
#[derive(Debug, Clone, Copy, PartialEq, Eq, Structural)]
pub enum OpenFailure {
    NotFound,
    PermissionDenied,
    Other,
}

impl WcError {
    pub fn invalid_argument(msg: &str) -> (error: WcError)
        ensures
            error matches WcError::InvalidArgument(text) && text@ == msg@,
    {
        WcError::InvalidArgument(String::from_str(msg))
    }

    pub fn file_not_found(file: &str) -> (error: WcError)
        ensures
            error matches WcError::FileNotFound(name) && name@ == file@,
    {
        WcError::FileNotFound(String::from_str(file))
    }

    pub fn permission_denied(file: &str) -> (error: WcError)
        ensures
            error matches WcError::PermissionDenied(name) && name@ == file@,
    {
        WcError::PermissionDenied(String::from_str(file))
    }

    /// The error for a source named `file` that could not be opened, where
    /// `kind` says how `cause` failed: a missing source and a refused one are
    /// reported by name, any other failure as the I/O error that it is.
    pub fn open_failed(kind: OpenFailure, cause: std::io::Error, file: &str) -> (error: WcError)
        ensures
            match kind {
                OpenFailure::NotFound => error matches WcError::FileNotFound(name) && name@
                    == file@,
                OpenFailure::PermissionDenied => error matches WcError::PermissionDenied(name)
                    && name@ == file@,
                OpenFailure::Other => error == WcError::Io(cause),
            },
    {
        match kind {
            OpenFailure::NotFound => WcError::file_not_found(file),
            OpenFailure::PermissionDenied => WcError::permission_denied(file),
            OpenFailure::Other => WcError::Io(cause),
        }
    }

    /// The error for a source named `file` that failed to open with `cause`:
    /// a missing source and a refused one are reported by name, any other
    /// failure as the I/O error that it is. How `cause` failed is what
    /// [`open_failure_of`] says of it.
    pub fn from_open(cause: std::io::Error, file: &str) -> (error: WcError)
        ensures
            match open_failure_of(cause) {
                OpenFailure::NotFound => error matches WcError::FileNotFound(name) && name@
                    == file@,
                OpenFailure::PermissionDenied => error matches WcError::PermissionDenied(name)
                    && name@ == file@,
                OpenFailure::Other => error == WcError::Io(cause),
            },
    {
        let kind = open_failure_kind(&cause);
        WcError::open_failed(kind, cause, file)
    }

    /// What the message of this error begins with.
    pub open spec fn headline(self) -> Seq<char> {
        match self {
            WcError::Io(_) => "I/O error: "@,
            WcError::Utf8(_) => "Invalid UTF-8 sequence: "@,
            WcError::InvalidArgument(_) => "Invalid argument: "@,
            WcError::FileNotFound(_) => "File not found: "@,
            WcError::PermissionDenied(_) => "Permission denied: "@,
            WcError::Json(_) => "JSON serialization error: "@,
            WcError::Mmap(_) => "Memory map error: "@,
        }
    }

    /// Whether `detail` may follow the headline: it is the text that the
    /// error carries, or what the error that came from outside says of itself
    /// where it is displayed.
    pub open spec fn has_detail(self, detail: Seq<char>) -> bool {
        match self {
            WcError::Io(cause) => exists|text: String| #[trigger]
                to_string_from_display_ensures::<std::io::Error>(&cause, text) && text@ == detail,
            WcError::Utf8(cause) => exists|text: String| #[trigger]
                to_string_from_display_ensures::<core::str::Utf8Error>(&cause, text) && text@
                    == detail,
            WcError::InvalidArgument(text) => detail == text@,
            WcError::FileNotFound(name) => detail == name@,
            WcError::PermissionDenied(name) => detail == name@,
            WcError::Json(cause) => exists|text: String| #[trigger]
                to_string_from_display_ensures::<serde_json::Error>(&cause, text) && text@
                    == detail,
            WcError::Mmap(text) => detail == text@,
        }
    }

    /// The message of this error: its headline, then its detail.
    pub fn to_string(&self) -> (message: String)
        ensures
            exists|detail: Seq<char>| #[trigger]
                self.has_detail(detail) && message@ == self.headline() + detail,
    {
        match self {
            WcError::Io(cause) => {
                let detail = cause.to_string();
                assert(self.has_detail(detail@));
                headed("I/O error: ", detail.as_str())
            },
            WcError::Utf8(cause) => {
                let detail = cause.to_string();
                assert(self.has_detail(detail@));
                headed("Invalid UTF-8 sequence: ", detail.as_str())
            },
            WcError::InvalidArgument(text) => {
                assert(self.has_detail(text@));
                headed("Invalid argument: ", text.as_str())
            },
            WcError::FileNotFound(name) => {
                assert(self.has_detail(name@));
                headed("File not found: ", name.as_str())
            },
            WcError::PermissionDenied(name) => {
                assert(self.has_detail(name@));
                headed("Permission denied: ", name.as_str())
            },
            WcError::Json(cause) => {
                let detail = cause.to_string();
                assert(self.has_detail(detail@));
                headed("JSON serialization error: ", detail.as_str())
            },
            WcError::Mmap(text) => {
                assert(self.has_detail(text@));
                headed("Memory map error: ", text.as_str())
            },
        }
    }
}

/// `headline` followed by `detail`.
fn headed(headline: &str, detail: &str) -> (message: String)
    ensures
        message@ == headline@ + detail@,
{
    let mut message = String::from_str(headline);
    message.append(detail);
    message
}

/// How `cause` failed, as `std::io::Error::kind` tells it: not found,
/// permission denied, or anything else. An error has one kind, which is a
/// matter of the error alone.
pub uninterp spec fn open_failure_of(cause: std::io::Error) -> OpenFailure;

/// Tells apart how an open failed, by `std::io::Error::kind`: the kinds
/// `NotFound` and `PermissionDenied` are kept, every other kind is `Other`.
/// Which kind an error has is not spelled out; it is [`open_failure_of`].
#[verifier::external_body]
fn open_failure_kind(cause: &std::io::Error) -> (kind: OpenFailure)
    ensures
        kind == open_failure_of(*cause),
{
    match cause.kind() {
        std::io::ErrorKind::NotFound => OpenFailure::NotFound,
        std::io::ErrorKind::PermissionDenied => OpenFailure::PermissionDenied,
        _ => OpenFailure::Other,
    }
}

impl From<std::io::Error> for WcError {
    fn from(cause: std::io::Error) -> (error: WcError) {
        WcError::Io(cause)
    }
}

impl FromSpecImpl<std::io::Error> for WcError {
    open spec fn obeys_from_spec() -> bool {
        true
    }

    open spec fn from_spec(cause: std::io::Error) -> WcError {
        WcError::Io(cause)
    }
}

impl From<core::str::Utf8Error> for WcError {
    fn from(cause: core::str::Utf8Error) -> (error: WcError) {
        WcError::Utf8(cause)
    }
}

impl FromSpecImpl<core::str::Utf8Error> for WcError {
    open spec fn obeys_from_spec() -> bool {
        true
    }

    open spec fn from_spec(cause: core::str::Utf8Error) -> WcError {
        WcError::Utf8(cause)
    }
}

impl From<serde_json::Error> for WcError {
    fn from(cause: serde_json::Error) -> (error: WcError) {
        WcError::Json(cause)
    }
}

impl FromSpecImpl<serde_json::Error> for WcError {
    open spec fn obeys_from_spec() -> bool {
        true
    }

    open spec fn from_spec(cause: serde_json::Error) -> WcError {
        WcError::Json(cause)
    }
}

} // verus!
