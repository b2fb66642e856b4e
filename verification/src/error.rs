//! The errors the library reports.
use vstd::prelude::*;
use vstd::string::*;

verus! {

/// What can go wrong when planning or running a scan or a cleanup.
#[derive(Debug, Clone)]
pub enum SentinelError {
    /// The path is protected and cannot be cleaned.
    ProtectedPath(String),
    /// A size expression could not be read.
    InvalidSize(String),
    /// The scan root does not exist.
    ScanRootNotFound(String),
    /// The scan root is not a directory.
    ScanRootNotDirectory(String),
    /// A cleanup needs either a dry run or an execution.
    MissingCleanMode,
    /// A dry run and an execution exclude each other.
    ConflictingCleanMode,
    /// An I/O error, with the path where it happened.
    Io { path: String, message: String },
}

/// Results of the library's fallible operations.
pub type SentinelResult<T> = Result<T, SentinelError>;

/// The message shown for an error.
pub open spec fn error_text(e: SentinelError) -> Seq<char> {
    match e {
        SentinelError::ProtectedPath(p) => "path is protected and cannot be cleaned: "@ + p@,
        SentinelError::InvalidSize(s) => "invalid size expression: "@ + s@,
        SentinelError::ScanRootNotFound(p) => "scan root does not exist: "@ + p@,
        SentinelError::ScanRootNotDirectory(p) => "scan root is not a directory: "@ + p@,
        SentinelError::MissingCleanMode => "clean requires either --dry-run or --execute"@,
        SentinelError::ConflictingCleanMode => "--dry-run and --execute cannot be used together"@,
        SentinelError::Io { path, message } => "io error at "@ + path@ + ": "@ + message@,
    }
}

impl SentinelError {
    /// The message shown for this error.
    pub fn message(&self) -> (r: String)
        ensures
            r@ == error_text(*self),
    {
        let mut out = String::new();
        match self {
            SentinelError::ProtectedPath(p) => {
                out.append("path is protected and cannot be cleaned: ");
                out.append(p.as_str());
            },
            SentinelError::InvalidSize(s) => {
                out.append("invalid size expression: ");
                out.append(s.as_str());
            },
            SentinelError::ScanRootNotFound(p) => {
                out.append("scan root does not exist: ");
                out.append(p.as_str());
            },
            SentinelError::ScanRootNotDirectory(p) => {
                out.append("scan root is not a directory: ");
                out.append(p.as_str());
            },
            SentinelError::MissingCleanMode => {
                out.append("clean requires either --dry-run or --execute");
            },
            SentinelError::ConflictingCleanMode => {
                out.append("--dry-run and --execute cannot be used together");
            },
            SentinelError::Io { path, message } => {
                out.append("io error at ");
                out.append(path.as_str());
                out.append(": ");
                out.append(message.as_str());
            },
        }
        assert(out@ =~= error_text(*self));
        out
    }
}

} // verus!
