//! The entries a scan produces and the statistics over them.
use std::time::SystemTime;
use vstd::prelude::*;
use crate::order::{first_n, is_stable_sort, stable_sort, strict_weak_order, view_seq};

verus! {

/// A modification time, carried through unread.
#[verifier::external_type_specification]
#[verifier::external_body]
pub struct ExSystemTime(SystemTime);

/// One file or directory met by a scan.
#[derive(Debug, Clone)]
pub struct FileEntry {
    /// The full path of the entry.
    pub path: String,
    /// The size of a file; directories count as 0.
    pub size: u64,
    /// The modification time, when it could be read.
    pub modified: Option<SystemTime>,
    /// Whether the entry is a directory.
    pub is_dir: bool,
    /// Depth below the scan root.
    pub depth: usize,
}

impl FileEntry {
    /// A file entry.
    pub fn file(path: String, size: u64, modified: Option<SystemTime>, depth: usize) -> (r: Self)
        ensures
            r.path == path,
            r.size == size,
            r.modified == modified,
            !r.is_dir,
            r.depth == depth,
    {
        FileEntry { path, size, modified, is_dir: false, depth }
    }

    /// A directory entry, whose own size is 0.
    pub fn dir(path: String, modified: Option<SystemTime>, depth: usize) -> (r: Self)
        ensures
            r.path == path,
            r.size == 0,
            r.modified == modified,
            r.is_dir,
            r.depth == depth,
    {
        FileEntry { path, size: 0, modified, is_dir: true, depth }
    }

    /// Whether the entry is a file.
    pub fn is_file(&self) -> (r: bool)
        ensures
            r == !self.is_dir,
    {
        !self.is_dir
    }
}

/// Number of directories among the entries.
pub open spec fn dir_count(s: Seq<FileEntry>) -> nat
    decreases s.len(),
{
    if s.len() == 0 {
        0
    } else {
        dir_count(s.drop_last()) + if s.last().is_dir {
            1nat
        } else {
            0nat
        }
    }
}

/// Number of files among the entries.
pub open spec fn file_count(s: Seq<FileEntry>) -> nat
    decreases s.len(),
{
    if s.len() == 0 {
        0
    } else {
        file_count(s.drop_last()) + if s.last().is_dir {
            0nat
        } else {
            1nat
        }
    }
}

/// Total size of the files among the entries.
pub open spec fn file_bytes(s: Seq<FileEntry>) -> nat
    decreases s.len(),
{
    if s.len() == 0 {
        0
    } else {
        file_bytes(s.drop_last()) + if s.last().is_dir {
            0nat
        } else {
            s.last().size as nat
        }
    }
}

/// `n`, or `u64::MAX` when it does not fit.
pub open spec fn saturating(n: nat) -> u64 {
    if n <= u64::MAX {
        n as u64
    } else {
        u64::MAX
    }
}

/// Counts over a scan.
#[derive(Debug, Clone)]
pub struct ScanStats {
    pub files: usize,
    pub dirs: usize,
    pub total_size: u64,
    pub errors: usize,
}

impl Default for ScanStats {
    fn default() -> (r: Self)
        ensures
            r.files == 0,
            r.dirs == 0,
            r.total_size == 0,
            r.errors == 0,
    {
        ScanStats { files: 0, dirs: 0, total_size: 0, errors: 0 }
    }
}

/// The result of a scan: the entries met, their statistics and the errors
/// recorded on the way.
#[derive(Debug, Clone)]
pub struct ScanReport {
    pub root: String,
    pub entries: Vec<FileEntry>,
    pub stats: ScanStats,
    pub errors: Vec<String>,
}

/// Every entry of a scan is counted once, as a file or as a directory.
pub proof fn lemma_every_entry_counted(s: Seq<FileEntry>)
    ensures
        dir_count(s) + file_count(s) == s.len(),
    decreases s.len(),
{
    if s.len() > 0 {
        lemma_every_entry_counted(s.drop_last());
    }
}

impl ScanReport {
    /// Builds a report and summarises its entries: the number of files and
    /// of directories, the total file size (capped at `u64::MAX`) and the
    /// number of errors.
    pub fn new(root: String, entries: Vec<FileEntry>, errors: Vec<String>) -> (r: Self)
        ensures
            r.root == root,
            r.entries == entries,
            r.errors == errors,
            r.stats.files == file_count(entries@),
            r.stats.dirs == dir_count(entries@),
            r.stats.total_size == saturating(file_bytes(entries@)),
            r.stats.errors == errors@.len(),
    {
        let mut stats = ScanStats::default();
        let mut i: usize = 0;
        while i < entries.len()
            invariant
                i <= entries@.len(),
                stats.files == file_count(entries@.take(i as int)),
                stats.dirs == dir_count(entries@.take(i as int)),
                stats.total_size == saturating(file_bytes(entries@.take(i as int))),
                stats.errors == 0,
            decreases entries.len() - i,
        {
            proof {
                assert(entries@.take(i + 1).drop_last() =~= entries@.take(i as int));
                lemma_every_entry_counted(entries@.take(i as int));
            }
            if entries[i].is_dir {
                stats.dirs = stats.dirs + 1;
            } else {
                stats.files = stats.files + 1;
                stats.total_size = stats.total_size.saturating_add(entries[i].size);
            }
            i = i + 1;
        }
        assert(entries@.take(entries@.len() as int) =~= entries@);
        stats.errors = errors.len();
        ScanReport { root, entries, stats, errors }
    }
}

/// Positions of entries ordered by size: larger first.
pub open spec fn entry_larger(entries: Seq<FileEntry>) -> spec_fn(usize, usize) -> bool {
    |i: usize, j: usize| entries[i as int].size > entries[j as int].size
}

/// The positions `0..n` in order.
pub open spec fn all_positions(n: nat) -> Seq<usize> {
    Seq::new(n, |i: int| i as usize)
}

/// The positions of the largest entries: all positions stably sorted larger
/// first (equal sizes keep the scan order), at most `limit` of them.
pub fn largest_entries(entries: &Vec<FileEntry>, limit: usize) -> (r: Vec<usize>)
    ensures
        exists|all: Seq<usize>|
            is_stable_sort(all, all_positions(entries@.len()), entry_larger(entries@)) && #[trigger] first_n(
                all,
                limit as nat,
            ) == r@,
{
    let mut positions: Vec<usize> = Vec::new();
    let mut i: usize = 0;
    while i < entries.len()
        invariant
            i <= entries@.len(),
            positions@ == all_positions(i as nat),
        decreases entries.len() - i,
    {
        positions.push(i);
        assert(positions@ =~= all_positions((i + 1) as nat));
        i = i + 1;
    }
    let before = |a: &usize, b: &usize| -> (res: bool)
        requires
            *a < entries@.len(),
            *b < entries@.len(),
        ensures
            res == entry_larger(entries@)(*a, *b),
        { entries[*a].size > entries[*b].size };
    proof {
        assert(strict_weak_order(entry_larger(entries@)));
        assert forall|i: int, j: int|
            0 <= i < positions@.len() && 0 <= j < positions@.len() implies #[trigger] call_requires(
            before,
            (&positions@[i], &positions@[j]),
        ) by {
            assert(positions@[i] < entries@.len());
            assert(positions@[j] < entries@.len());
        }
    }
    let mut sorted = stable_sort(&positions, &before, Ghost(entry_larger(entries@)));
    let ghost all = sorted@;
    proof {
        assert(view_seq(sorted@) =~= sorted@);
        assert(view_seq(positions@) =~= positions@);
    }
    if limit < sorted.len() {
        sorted.truncate(limit);
    }
    assert(first_n(all, limit as nat) =~= sorted@);
    sorted
}

} // verus!
