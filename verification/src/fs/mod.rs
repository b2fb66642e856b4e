//! Scan results, the protection of system paths and the scanner's rules.
pub mod metadata;
pub mod safety;
pub mod scanner;

pub use metadata::{FileEntry, ScanReport, ScanStats};
pub use safety::SafetyGuard;
pub use scanner::Scanner;
