//! The configuration: directories the scanner skips, the residue rules, the
//! protected roots and the analyzers' thresholds.
use vstd::prelude::*;
use crate::text::push_owned;

verus! {

/// The settings shared by the scanner, the analyzers and the cleaner.
#[derive(Debug, Clone)]
pub struct AppConfig {
    /// Directory names the scan does not enter.
    pub ignore_dirs: Vec<String>,
    /// Directory names that count as development residue.
    pub residue_dirs: Vec<String>,
    /// Roots that must never be cleaned.
    pub protected_roots: Vec<String>,
    /// Optional maximum scan depth.
    pub max_depth: Option<usize>,
    /// Size expression of the large-file threshold used by the TUI.
    pub default_large_file_threshold: String,
    /// Smallest file size that takes part in duplicate detection.
    pub duplicate_min_size: u64,
}

/// The directories skipped by default.
pub open spec fn default_ignore_dirs() -> Seq<Seq<char>> {
    seq![".git"@, ".svn"@, ".hg"@, ".aegis_disk_trash"@]
}

/// The residue rules by default.
pub open spec fn default_residue_dirs() -> Seq<Seq<char>> {
    seq![
        "target"@,
        "node_modules"@,
        ".cache"@,
        "dist"@,
        "build"@,
        "__pycache__"@,
        ".pytest_cache"@,
        ".next"@,
        "coverage"@,
    ]
}

/// The protected roots by default (Unix-like systems).
pub open spec fn default_protected() -> Seq<Seq<char>> {
    seq!["/"@, "/System"@, "/bin"@, "/sbin"@, "/usr"@, "/etc"@, "/Library"@]
}

/// The system directories protected by default.
fn default_protected_roots() -> (r: Vec<String>)
    ensures
        r.deep_view() == default_protected(),
{
    let mut v: Vec<String> = Vec::new();
    push_owned(&mut v, "/");
    push_owned(&mut v, "/System");
    push_owned(&mut v, "/bin");
    push_owned(&mut v, "/sbin");
    push_owned(&mut v, "/usr");
    push_owned(&mut v, "/etc");
    push_owned(&mut v, "/Library");
    assert(v.deep_view() =~= default_protected());
    v
}

impl Default for AppConfig {
    /// The configuration used when no file is given.
    fn default() -> (r: Self)
        ensures
            r.ignore_dirs.deep_view() == default_ignore_dirs(),
            r.residue_dirs.deep_view() == default_residue_dirs(),
            r.protected_roots.deep_view() == default_protected(),
            r.max_depth is None,
            r.default_large_file_threshold@ == "100MB"@,
            r.duplicate_min_size == 1,
    {
        let mut ignore: Vec<String> = Vec::new();
        push_owned(&mut ignore, ".git");
        push_owned(&mut ignore, ".svn");
        push_owned(&mut ignore, ".hg");
        push_owned(&mut ignore, ".aegis_disk_trash");
        assert(ignore.deep_view() =~= default_ignore_dirs());
        let mut residue: Vec<String> = Vec::new();
        push_owned(&mut residue, "target");
        push_owned(&mut residue, "node_modules");
        push_owned(&mut residue, ".cache");
        push_owned(&mut residue, "dist");
        push_owned(&mut residue, "build");
        push_owned(&mut residue, "__pycache__");
        push_owned(&mut residue, ".pytest_cache");
        push_owned(&mut residue, ".next");
        push_owned(&mut residue, "coverage");
        assert(residue.deep_view() =~= default_residue_dirs());
        AppConfig {
            ignore_dirs: ignore,
            residue_dirs: residue,
            protected_roots: default_protected_roots(),
            max_depth: None,
            default_large_file_threshold: "100MB".to_owned(),
            duplicate_min_size: 1,
        }
    }
}

} // verus!
