//! The scanner's rules: which directory names it does not enter and how deep
//! it goes. Walking the filesystem is the application's part.
use vstd::prelude::*;
use std::time::SystemTime;
use crate::config::AppConfig;
use crate::fs::metadata::{dir_count, file_bytes, file_count, saturating, FileEntry, ScanReport};

verus! {

/// Walks a directory tree with the configuration's rules.
#[derive(Debug, Clone)]
pub struct Scanner {
    config: AppConfig,
}

impl Scanner {
    /// The directory names the scan skips.
    pub closed spec fn ignored(&self) -> Seq<Seq<char>> {
        self.config.ignore_dirs.deep_view()
    }

    /// The depth limit of the scan.
    pub closed spec fn depth_limit(&self) -> Option<usize> {
        self.config.max_depth
    }

    /// A scanner with the given configuration.
    pub fn new(config: AppConfig) -> (r: Self)
        ensures
            r.ignored() == config.ignore_dirs.deep_view(),
            r.depth_limit() == config.max_depth,
    {
        Scanner { config }
    }

    /// Whether an entry with this name is skipped together with everything
    /// below it.
    pub fn is_ignored(&self, name: &str) -> (r: bool)
        ensures
            r == self.ignored().contains(name@),
    {
        let n = self.config.ignore_dirs.len();
        let mut k: usize = 0;
        while k < n
            invariant
                n == self.config.ignore_dirs@.len(),
                self.ignored().len() == n,
                k <= n,
                forall|j: int| 0 <= j < k ==> self.ignored()[j] != name@,
            decreases n - k,
        {
            assert(self.ignored()[k as int] == self.config.ignore_dirs@[k as int]@);
            if crate::text::str_equal(self.config.ignore_dirs[k].as_str(), name) {
                return true;
            }
            k = k + 1;
        }
        false
    }

    /// The maximum depth of the scan, if any.
    pub fn max_depth(&self) -> (r: Option<usize>)
        ensures
            r == self.depth_limit(),
    {
        self.config.max_depth
    }
}

/// What the walk reports for one item of the tree.
#[derive(Debug, Clone)]
pub enum ScanItem {
    /// An item whose metadata was read.
    Found { path: String, depth: usize, is_dir: bool, is_file: bool, size: u64, modified: Option<SystemTime> },
    /// An item whose metadata could not be read.
    MetadataFailed { path: String, message: String },
    /// An item the walk could not reach.
    Failed { message: String },
}

/// The entries recorded for the walked items: directories and regular
/// files, in walk order; other kinds of items are left out.
pub open spec fn entries_of(items: Seq<ScanItem>) -> Seq<FileEntry>
    decreases items.len(),
{
    if items.len() == 0 {
        seq![]
    } else {
        let rest = entries_of(items.drop_last());
        match items.last() {
            ScanItem::Found { path, depth, is_dir, is_file, size, modified } => if is_dir {
                rest.push(FileEntry { path, size: 0, modified, is_dir: true, depth })
            } else if is_file {
                rest.push(FileEntry { path, size, modified, is_dir: false, depth })
            } else {
                rest
            },
            _ => rest,
        }
    }
}

/// The error messages recorded for the walked items, in walk order.
pub open spec fn errors_of(items: Seq<ScanItem>) -> Seq<Seq<char>>
    decreases items.len(),
{
    if items.len() == 0 {
        seq![]
    } else {
        let rest = errors_of(items.drop_last());
        match items.last() {
            ScanItem::Found { .. } => rest,
            ScanItem::MetadataFailed { path, message } => rest.push(
                "metadata failed for "@ + path@ + ": "@ + message@,
            ),
            ScanItem::Failed { message } => rest.push(message@),
        }
    }
}

/// The report of a walk from `root` that met `items`: the entries and the
/// errors, summarised as [`ScanReport::new`] does.
pub fn scan_report(root: String, items: Vec<ScanItem>) -> (r: ScanReport)
    ensures
        r.root == root,
        r.entries@ == entries_of(items@),
        r.errors.deep_view() == errors_of(items@),
        r.stats.files == file_count(entries_of(items@)),
        r.stats.dirs == dir_count(entries_of(items@)),
        r.stats.total_size == saturating(file_bytes(entries_of(items@))),
        r.stats.errors == errors_of(items@).len(),
{
    let mut entries: Vec<FileEntry> = Vec::new();
    let mut errors: Vec<String> = Vec::new();
    let mut i: usize = 0;
    while i < items.len()
        invariant
            i <= items@.len(),
            entries@ == entries_of(items@.take(i as int)),
            errors.deep_view() == errors_of(items@.take(i as int)),
        decreases items.len() - i,
    {
        assert(items@.take(i + 1).drop_last() =~= items@.take(i as int));
        match &items[i] {
            ScanItem::Found { path, depth, is_dir, is_file, size, modified } => {
                if *is_dir {
                    entries.push(FileEntry::dir(path.clone(), *modified, *depth));
                } else if *is_file {
                    entries.push(FileEntry::file(path.clone(), *size, *modified, *depth));
                }
            },
            ScanItem::MetadataFailed { path, message } => {
                let mut m = String::new();
                m.append("metadata failed for ");
                m.append(path.as_str());
                m.append(": ");
                m.append(message.as_str());
                let ghost before = errors.deep_view();
                let ghost mv = m@;
                errors.push(m);
                assert(errors.deep_view() =~= before.push(mv));
            },
            ScanItem::Failed { message } => {
                let ghost before = errors.deep_view();
                errors.push(message.clone());
                assert(errors.deep_view() =~= before.push(message@));
            },
        }
        assert(entries@ =~= entries_of(items@.take(i + 1)));
        assert(errors.deep_view() =~= errors_of(items@.take(i + 1)));
        i = i + 1;
    }
    assert(items@.take(items@.len() as int) =~= items@);
    let ghost ev = errors.deep_view();
    assert(ev.len() == errors@.len());
    ScanReport::new(root, entries, errors)
}

} // verus!
