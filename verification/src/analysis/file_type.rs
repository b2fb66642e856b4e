//! Space by file type: file counts and sizes grouped by extension, to show
//! which kinds of files take up the room.
use vstd::prelude::*;
use crate::fs::metadata::{file_count, saturating, FileEntry};
use crate::order::{
    first_n, is_stable_sort, lemma_stable_sort_len, lemma_stable_sort_sorted, lemma_stable_sort_unique, stable_sort,
    strict_weak_order, view_seq, Duplicate,
};
use crate::paths::{extension, file_name, path_extension, path_file_name};
use crate::text::{lower, lower_chars, str_chars, string_from_chars, trim, trim_chars};

verus! {

/// The statistics of one file type.
#[derive(Debug, Clone, PartialEq, Eq)]
pub struct FileTypeStat {
    /// The extension in lower case, or `[no extension]`.
    pub extension: String,
    /// Number of files of this type.
    pub files: usize,
    /// Their total size (capped at `u64::MAX`).
    pub total_size: u64,
    /// The largest of them.
    pub largest_file: Option<String>,
    /// The size of the largest.
    pub largest_size: u64,
}

/// File type statistics read as plain values.
pub struct StatView {
    pub extension: Seq<char>,
    pub files: nat,
    pub total_size: u64,
    pub largest_file: Option<Seq<char>>,
    pub largest_size: u64,
}

/// An optional string read as an optional character sequence.
pub open spec fn opt_view(o: Option<String>) -> Option<Seq<char>> {
    match o {
        Some(s) => Some(s@),
        None => None,
    }
}

impl View for FileTypeStat {
    type V = StatView;

    open spec fn view(&self) -> StatView {
        StatView {
            extension: self.extension@,
            files: self.files as nat,
            total_size: self.total_size,
            largest_file: opt_view(self.largest_file),
            largest_size: self.largest_size,
        }
    }
}

/// An exact copy of an optional string.
fn copy_opt(o: &Option<String>) -> (r: Option<String>)
    ensures
        r == *o,
{
    match o {
        Some(s) => Some(s.clone()),
        None => None,
    }
}

impl Duplicate for FileTypeStat {
    fn duplicate(&self) -> (r: Self) {
        FileTypeStat {
            extension: self.extension.clone(),
            files: self.files,
            total_size: self.total_size,
            largest_file: copy_opt(&self.largest_file),
            largest_size: self.largest_size,
        }
    }
}

impl FileTypeStat {
    /// The mean file size, rounded down (0 when there are no files).
    pub fn average_size(&self) -> (r: u64)
        ensures
            r == if self.files == 0 {
                0
            } else {
                self.total_size / (self.files as u64)
            },
    {
        if self.files == 0 {
            0
        } else {
            self.total_size / self.files as u64
        }
    }

    /// The extension as shown.
    pub fn display_extension(&self) -> (r: &str)
        ensures
            r@ == self.extension@,
    {
        self.extension.as_str()
    }
}

/// The running totals of one file type.
#[derive(Debug, Clone)]
struct FileTypeAccumulator {
    files: usize,
    total_size: u64,
    largest_file: Option<String>,
    largest_size: u64,
}

/// Running totals read as plain values.
pub struct AccView {
    pub files: nat,
    pub total_size: u64,
    pub largest_file: Option<Seq<char>>,
    pub largest_size: u64,
}

/// No file yet.
pub open spec fn empty_acc() -> AccView {
    AccView { files: 0, total_size: 0, largest_file: None, largest_size: 0 }
}

/// The totals after one more file; a file at least as large as the largest
/// so far becomes the largest.
pub open spec fn acc_add(a: AccView, e: FileEntry) -> AccView {
    AccView {
        files: a.files + 1,
        total_size: saturating((a.total_size + e.size) as nat),
        largest_file: if e.size >= a.largest_size {
            Some(e.path@)
        } else {
            a.largest_file
        },
        largest_size: if e.size >= a.largest_size {
            e.size
        } else {
            a.largest_size
        },
    }
}

impl FileTypeAccumulator {
    spec fn view_acc(&self) -> AccView {
        AccView {
            files: self.files as nat,
            total_size: self.total_size,
            largest_file: opt_view(self.largest_file),
            largest_size: self.largest_size,
        }
    }

    fn empty() -> (r: Self)
        ensures
            r.view_acc() == empty_acc(),
    {
        FileTypeAccumulator { files: 0, total_size: 0, largest_file: None, largest_size: 0 }
    }

    fn add_file(&mut self, entry: &FileEntry)
        requires
            old(self).files < usize::MAX,
        ensures
            final(self).view_acc() == acc_add(old(self).view_acc(), *entry),
    {
        self.files = self.files + 1;
        self.total_size = self.total_size.saturating_add(entry.size);
        if entry.size >= self.largest_size {
            self.largest_size = entry.size;
            self.largest_file = Some(entry.path.clone());
        }
    }

    fn into_stat(self, extension: String) -> (r: FileTypeStat)
        ensures
            r@ == stat_of(extension@, self.view_acc()),
    {
        FileTypeStat {
            extension,
            files: self.files,
            total_size: self.total_size,
            largest_file: self.largest_file,
            largest_size: self.largest_size,
        }
    }
}

/// The statistics of a type from its totals.
pub open spec fn stat_of(label: Seq<char>, a: AccView) -> StatView {
    StatView {
        extension: label,
        files: a.files,
        total_size: a.total_size,
        largest_file: a.largest_file,
        largest_size: a.largest_size,
    }
}

/// The type label of a path: its extension in lower case, or
/// `[no extension]` when it has none or only whitespace.
pub open spec fn type_label(p: Seq<char>) -> Seq<char> {
    match extension(p) {
        Some(x) => if trim(lower(x)).len() > 0 {
            lower(x)
        } else {
            "[no extension]"@
        },
        None => "[no extension]"@,
    }
}

/// A hidden file: its name starts with `.`.
pub open spec fn is_hidden(p: Seq<char>) -> bool {
    match file_name(p) {
        Some(n) => n.len() > 0 && n[0] == '.',
        None => false,
    }
}

/// The entry is a file that the analysis counts.
pub open spec fn counted(e: FileEntry, include_hidden: bool) -> bool {
    !e.is_dir && (include_hidden || !is_hidden(e.path@))
}

/// Position of the first row labelled `l`, or -1.
pub open spec fn row_of(t: Seq<(Seq<char>, AccView)>, l: Seq<char>) -> int
    decreases t.len(),
{
    if t.len() == 0 {
        -1
    } else if t[0].0 == l {
        0
    } else if row_of(t.drop_first(), l) < 0 {
        -1
    } else {
        1 + row_of(t.drop_first(), l)
    }
}

/// The table of types over the entries, in order of first appearance.
pub open spec fn type_table(entries: Seq<FileEntry>, include_hidden: bool) -> Seq<(Seq<char>, AccView)>
    decreases entries.len(),
{
    if entries.len() == 0 {
        seq![]
    } else {
        let t = type_table(entries.drop_last(), include_hidden);
        let e = entries.last();
        if counted(e, include_hidden) {
            let l = type_label(e.path@);
            let k = row_of(t, l);
            if k >= 0 {
                t.update(k, (l, acc_add(t[k].1, e)))
            } else {
                t.push((l, acc_add(empty_acc(), e)))
            }
        } else {
            t
        }
    }
}

/// The statistics over the entries, one per type, in order of first
/// appearance.
pub open spec fn type_stats(entries: Seq<FileEntry>, include_hidden: bool) -> Seq<StatView> {
    type_table(entries, include_hidden).map_values(|row: (Seq<char>, AccView)| stat_of(row.0, row.1))
}

/// Larger total first; equal totals, more files first.
pub open spec fn type_before() -> spec_fn(StatView, StatView) -> bool {
    |x: StatView, y: StatView| x.total_size > y.total_size || (x.total_size == y.total_size && x.files > y.files)
}

proof fn lemma_row_of(t: Seq<(Seq<char>, AccView)>, l: Seq<char>, k: int)
    requires
        0 <= k <= t.len(),
        forall|j: int| 0 <= j < k ==> #[trigger] t[j].0 != l,
    ensures
        k < t.len() && t[k].0 == l ==> row_of(t, l) == k,
        k == t.len() ==> row_of(t, l) == -1,
    decreases k,
{
    if k > 0 {
        let d = t.drop_first();
        assert forall|j: int| 0 <= j < k - 1 implies #[trigger] d[j].0 != l by {
            assert(d[j] == t[j + 1]);
        }
        lemma_row_of(d, l, k - 1);
    } else if t.len() > 0 {
    }
}

/// Groups files by extension.
#[derive(Debug, Clone)]
pub struct FileTypeAnalyzer {
    include_hidden: bool,
}

impl Default for FileTypeAnalyzer {
    fn default() -> (r: Self)
        ensures
            r.counts_hidden(),
    {
        Self::new()
    }
}

impl FileTypeAnalyzer {
    /// Whether hidden files are counted.
    pub closed spec fn counts_hidden(&self) -> bool {
        self.include_hidden
    }

    /// An analyzer that counts every file.
    pub fn new() -> (r: Self)
        ensures
            r.counts_hidden(),
    {
        FileTypeAnalyzer { include_hidden: true }
    }

    /// An analyzer that leaves hidden files out.
    pub fn without_hidden_files() -> (r: Self)
        ensures
            !r.counts_hidden(),
    {
        FileTypeAnalyzer { include_hidden: false }
    }

    /// One statistic per type of the counted files, the larger total first,
    /// equal totals by file count; equal ones keep the order in which their
    /// types first appear.
    pub fn analyze(&self, entries: &[FileEntry]) -> (r: Vec<FileTypeStat>)
        ensures
            is_stable_sort(view_seq(r@), type_stats(entries@, self.counts_hidden()), type_before()),
            view_seq(r@) == sorted_type_stats(entries@, self.counts_hidden()),
    {
        let mut labels: Vec<String> = Vec::new();
        let mut accs: Vec<FileTypeAccumulator> = Vec::new();
        let mut i: usize = 0;
        while i < entries.len()
            invariant
                i <= entries@.len(),
                labels@.len() == accs@.len(),
                labels@.len() == type_table(entries@.take(i as int), self.include_hidden).len(),
                forall|k: int| 0 <= k < labels@.len() ==> {
                    let row = #[trigger] type_table(entries@.take(i as int), self.include_hidden)[k];
                    &&& labels@[k]@ == row.0
                    &&& accs@[k].view_acc() == row.1
                    &&& accs@[k].files <= i
                },
            decreases entries.len() - i,
        {
            let ghost t = type_table(entries@.take(i as int), self.include_hidden);
            assert(entries@.take(i + 1).drop_last() =~= entries@.take(i as int));
            let e = &entries[i];
            let take = e.is_file() && (self.include_hidden || !is_hidden_file(e.path.as_str()));
            if take {
                let label = extension_label(e.path.as_str());
                let mut k: usize = 0;
                while k < labels.len() && !crate::text::str_equal(labels[k].as_str(), label.as_str())
                    invariant
                        k <= labels@.len(),
                        labels@.len() == t.len(),
                        forall|j: int| 0 <= j < labels@.len() ==> #[trigger] labels@[j]@ == t[j].0,
                        forall|j: int| 0 <= j < k ==> #[trigger] t[j].0 != label@,
                    decreases labels.len() - k,
                {
                    k = k + 1;
                }
                proof {
                    lemma_row_of(t, label@, k as int);
                }
                if k < labels.len() {
                    let mut acc = accs.remove(k);
                    acc.add_file(e);
                    accs.insert(k, acc);
                    proof {
                        let t2 = type_table(entries@.take(i + 1), self.include_hidden);
                        assert(t2 == t.update(k as int, (label@, acc_add(t[k as int].1, *e))));
                        assert forall|j: int| 0 <= j < labels@.len() implies {
                            let row = #[trigger] t2[j];
                            &&& labels@[j]@ == row.0
                            &&& accs@[j].view_acc() == row.1
                            &&& accs@[j].files <= i + 1
                        } by {
                        }
                    }
                } else {
                    let mut acc = FileTypeAccumulator::empty();
                    acc.add_file(e);
                    labels.push(label);
                    accs.push(acc);
                }
            }
            i = i + 1;
        }
        assert(entries@.take(entries@.len() as int) =~= entries@);
        let ghost t = type_table(entries@, self.include_hidden);
        assert(entries@.take(i as int) =~= entries@);
        let mut stats: Vec<FileTypeStat> = Vec::new();
        let n = labels.len();
        let mut k: usize = 0;
        while k < n
            invariant
                n == labels@.len(),
                t == type_table(entries@, self.include_hidden),
                labels@.len() == accs@.len(),
                labels@.len() == t.len(),
                forall|j: int| 0 <= j < n ==> {
                    let row = #[trigger] t[j];
                    &&& labels@[j]@ == row.0
                    &&& accs@[j].view_acc() == row.1
                },
                k <= n,
                view_seq(stats@) == type_stats(entries@, self.include_hidden).take(k as int),
            decreases n - k,
        {
            let acc = FileTypeAccumulator {
                files: accs[k].files,
                total_size: accs[k].total_size,
                largest_file: copy_opt(&accs[k].largest_file),
                largest_size: accs[k].largest_size,
            };
            assert(acc.view_acc() == accs@[k as int].view_acc());
            assert(type_stats(entries@, self.include_hidden).len() == t.len());
            assert(type_stats(entries@, self.include_hidden)[k as int] == stat_of(t[k as int].0, t[k as int].1));
            assert(labels@[k as int]@ == t[k as int].0);
            let st = acc.into_stat(labels[k].clone());
            assert(st@ == type_stats(entries@, self.include_hidden)[k as int]);
            let ghost before = view_seq(stats@);
            stats.push(st);
            assert(view_seq(stats@) =~= before.push(type_stats(entries@, self.include_hidden)[k as int]));
            assert(view_seq(stats@) =~= type_stats(entries@, self.include_hidden).take(k + 1));
            k = k + 1;
        }
        assert(type_stats(entries@, self.include_hidden).take(n as int) =~= type_stats(entries@, self.include_hidden));
        let before = |x: &FileTypeStat, y: &FileTypeStat| -> (res: bool)
            ensures
                res == (x.total_size > y.total_size || (x.total_size == y.total_size && x.files > y.files)),
            { x.total_size > y.total_size || (x.total_size == y.total_size && x.files > y.files) };
        assert(strict_weak_order(type_before()));
        let r = stable_sort(&stats, &before, Ghost(type_before()));
        proof {
            lemma_sorted_type_stats(view_seq(r@), entries@, self.include_hidden);
        }
        r
    }

    /// The first `limit` statistics of [`FileTypeAnalyzer::analyze`].
    pub fn top_n(&self, entries: &[FileEntry], limit: usize) -> (r: Vec<FileTypeStat>)
        ensures
            view_seq(r@) == first_n(sorted_type_stats(entries@, self.counts_hidden()), limit as nat),
            top_selection(
                sorted_type_stats(entries@, self.counts_hidden()),
                view_seq(r@),
                type_stats(entries@, self.counts_hidden()).len(),
                limit as nat,
            ),
    {
        let mut all = self.analyze(entries);
        let ghost whole = view_seq(all@);
        proof {
            lemma_top_types_are_largest(whole, entries@, self.include_hidden, limit as nat);
        }
        if limit < all.len() {
            all.truncate(limit);
        }
        assert(view_seq(all@) =~= first_n(whole, limit as nat));
        all
    }
}

/// The type label of a path.
fn extension_label(path: &str) -> (r: String)
    ensures
        r@ == type_label(path@),
{
    let p = str_chars(path);
    match path_extension(&p) {
        Some(ext) => {
            let lowered = lower_chars(&ext);
            let trimmed = trim_chars(&lowered);
            if trimmed.len() > 0 {
                string_from_chars(&lowered)
            } else {
                "[no extension]".to_owned()
            }
        },
        None => "[no extension]".to_owned(),
    }
}

/// Whether a path names a hidden file.
fn is_hidden_file(path: &str) -> (r: bool)
    ensures
        r == is_hidden(path@),
{
    let p = str_chars(path);
    match path_file_name(&p) {
        Some(name) => name.len() > 0 && name[0] == '.',
        None => false,
    }
}

/// The number of entries the analysis counts.
pub open spec fn counted_files(entries: Seq<FileEntry>, include_hidden: bool) -> nat
    decreases entries.len(),
{
    if entries.len() == 0 {
        0
    } else {
        counted_files(entries.drop_last(), include_hidden) + if counted(entries.last(), include_hidden) {
            1nat
        } else {
            0nat
        }
    }
}

/// The file counts of the types, added up.
pub open spec fn stats_files(sv: Seq<StatView>) -> nat
    decreases sv.len(),
{
    if sv.len() == 0 {
        0
    } else {
        stats_files(sv.drop_last()) + sv.last().files
    }
}

proof fn lemma_row_of_range(t: Seq<(Seq<char>, AccView)>, l: Seq<char>)
    ensures
        row_of(t, l) < t.len(),
        row_of(t, l) >= 0 ==> t[row_of(t, l)].0 == l,
        row_of(t, l) < 0 ==> forall|j: int| 0 <= j < t.len() ==> #[trigger] t[j].0 != l,
    decreases t.len(),
{
    if t.len() > 0 {
        let d = t.drop_first();
        lemma_row_of_range(d, l);
        if t[0].0 != l && row_of(d, l) >= 0 {
            assert(t[row_of(t, l)] == d[row_of(d, l)]);
        }
        if row_of(t, l) < 0 {
            assert forall|j: int| 0 <= j < t.len() implies #[trigger] t[j].0 != l by {
                if j > 0 {
                    assert(t[j] == d[j - 1]);
                }
            }
        }
    }
}

proof fn lemma_stats_files_update(sv: Seq<StatView>, k: int, v: StatView)
    requires
        0 <= k < sv.len(),
    ensures
        stats_files(sv.update(k, v)) + sv[k].files == stats_files(sv) + v.files,
    decreases sv.len(),
{
    let u = sv.update(k, v);
    if k == sv.len() - 1 {
        assert(u.drop_last() =~= sv.drop_last());
    } else {
        lemma_stats_files_update(sv.drop_last(), k, v);
        assert(u.drop_last() =~= sv.drop_last().update(k, v));
    }
}

/// One row per type: the labels of the type table are distinct, and its
/// file counts add up to the number of files counted.
proof fn lemma_type_table_shape(entries: Seq<FileEntry>, include_hidden: bool)
    ensures
        ({
            let t = type_table(entries, include_hidden);
            &&& forall|i: int, j: int| 0 <= i < j < t.len() ==> #[trigger] t[i].0 != #[trigger] t[j].0
            &&& stats_files(t.map_values(|row: (Seq<char>, AccView)| stat_of(row.0, row.1))) == counted_files(
                entries,
                include_hidden,
            )
        }),
    decreases entries.len(),
{
    if entries.len() > 0 {
        let prev = entries.drop_last();
        lemma_type_table_shape(prev, include_hidden);
        let t = type_table(prev, include_hidden);
        let sv = t.map_values(|row: (Seq<char>, AccView)| stat_of(row.0, row.1));
        let e = entries.last();
        if counted(e, include_hidden) {
            let l = type_label(e.path@);
            lemma_row_of_range(t, l);
            let k = row_of(t, l);
            let nt = type_table(entries, include_hidden);
            let nsv = nt.map_values(|row: (Seq<char>, AccView)| stat_of(row.0, row.1));
            if k >= 0 {
                let row = (l, acc_add(t[k].1, e));
                assert(nt == t.update(k, row));
                assert(nsv =~= sv.update(k, stat_of(row.0, row.1)));
                lemma_stats_files_update(sv, k, stat_of(row.0, row.1));
                assert forall|i: int, j: int| 0 <= i < j < nt.len() implies #[trigger] nt[i].0 != #[trigger] nt[j].0 by {
                    assert(nt[i].0 == t[i].0);
                    assert(nt[j].0 == t[j].0);
                }
            } else {
                assert(nt == t.push((l, acc_add(empty_acc(), e))));
                assert(nsv.drop_last() =~= sv);
                assert forall|i: int, j: int| 0 <= i < j < nt.len() implies #[trigger] nt[i].0 != #[trigger] nt[j].0 by {
                    if j == t.len() {
                        assert(t[i].0 != l);
                    } else {
                        assert(nt[i] == t[i]);
                        assert(nt[j] == t[j]);
                    }
                }
            }
        }
    }
}

/// Each counted file is counted under exactly one type: the types are
/// distinct and their file counts add up to the number of files counted.
pub proof fn lemma_every_file_typed_once(entries: Seq<FileEntry>, include_hidden: bool)
    ensures
        forall|i: int, j: int|
            0 <= i < j < type_stats(entries, include_hidden).len() ==> #[trigger] type_stats(entries, include_hidden)[i].extension
                != #[trigger] type_stats(entries, include_hidden)[j].extension,
        stats_files(type_stats(entries, include_hidden)) == counted_files(entries, include_hidden),
{
    lemma_type_table_shape(entries, include_hidden);
    let t = type_table(entries, include_hidden);
    assert forall|i: int, j: int|
        0 <= i < j < type_stats(entries, include_hidden).len() implies #[trigger] type_stats(entries, include_hidden)[i].extension
            != #[trigger] type_stats(entries, include_hidden)[j].extension by {
        assert(type_stats(entries, include_hidden)[i].extension == t[i].0);
        assert(type_stats(entries, include_hidden)[j].extension == t[j].0);
    }
}

/// The statistics over the entries in the order the analysis gives them:
/// the one stable sort of [`type_stats`] by [`type_before`].
pub open spec fn sorted_type_stats(entries: Seq<FileEntry>, include_hidden: bool) -> Seq<StatView> {
    choose|s: Seq<StatView>| is_stable_sort(s, type_stats(entries, include_hidden), type_before())
}

/// Any stable sort of the statistics is the one the analysis gives.
proof fn lemma_sorted_type_stats(s: Seq<StatView>, entries: Seq<FileEntry>, include_hidden: bool)
    requires
        is_stable_sort(s, type_stats(entries, include_hidden), type_before()),
    ensures
        s == sorted_type_stats(entries, include_hidden),
{
    let c = sorted_type_stats(entries, include_hidden);
    assert(is_stable_sort(c, type_stats(entries, include_hidden), type_before()));
    assert(strict_weak_order(type_before()));
    lemma_stable_sort_unique(s, c, type_stats(entries, include_hidden), type_before());
}

/// The sorted statistics hold each type once: their labels are distinct.
proof fn lemma_sorted_types_distinct(all: Seq<StatView>, entries: Seq<FileEntry>, include_hidden: bool)
    requires
        is_stable_sort(all, type_stats(entries, include_hidden), type_before()),
    ensures
        forall|i: int, j: int| 0 <= i < j < all.len() ==> #[trigger] all[i].extension != #[trigger] all[j].extension,
{
    let inp = type_stats(entries, include_hidden);
    let b = type_before();
    lemma_every_file_typed_once(entries, include_hidden);
    let p = choose|p: Seq<usize>| #[trigger]
        crate::order::is_arrangement(p, inp.len()) && (forall|k: int, l: int|
            0 <= k < l < p.len() ==> crate::order::stable_before(inp, b, #[trigger] p[k] as int, #[trigger] p[l] as int))
            && all.len() == inp.len() && (forall|k: int|
            0 <= k < all.len() ==> #[trigger] all[k] == inp[p[k] as int]);
    assert forall|i: int, j: int| 0 <= i < j < all.len() implies #[trigger] all[i].extension != #[trigger] all[j].extension by {
        assert(all[i] == inp[p[i] as int]);
        assert(all[j] == inp[p[j] as int]);
        assert(p[i] != p[j]);
        if p[i] < p[j] {
            assert(inp[p[i] as int].extension != inp[p[j] as int].extension);
        } else {
            assert(inp[p[j] as int].extension != inp[p[i] as int].extension);
        }
    }
}

/// The first `limit` types are the largest ones: the selection keeps
/// `min(limit, number of types)` of them, each as the analysis gives it,
/// in order (no type kept comes before an earlier one), with distinct
/// labels, and no type left out comes before a type kept.
pub proof fn lemma_top_types_are_largest(
    all: Seq<StatView>,
    entries: Seq<FileEntry>,
    include_hidden: bool,
    limit: nat,
)
    requires
        is_stable_sort(all, type_stats(entries, include_hidden), type_before()),
    ensures
        all == sorted_type_stats(entries, include_hidden),
        top_selection(all, first_n(all, limit), type_stats(entries, include_hidden).len(), limit),
{
    lemma_sorted_type_stats(all, entries, include_hidden);
    lemma_stable_sort_len(all, type_stats(entries, include_hidden), type_before());
    assert(strict_weak_order(type_before()));
    lemma_stable_sort_sorted(all, type_stats(entries, include_hidden), type_before());
    lemma_sorted_types_distinct(all, entries, include_hidden);
}

/// `top` is the selection of the first `limit` of the sorted statistics
/// `all` over `types` types: `min(limit, types)` of them, in their order,
/// sorted larger first, with distinct labels, and no statistic left out
/// before one kept.
pub open spec fn top_selection(all: Seq<StatView>, top: Seq<StatView>, types: nat, limit: nat) -> bool {
    &&& top.len() == if limit < types {
        limit as int
    } else {
        types as int
    }
    &&& forall|k: int| 0 <= k < top.len() ==> #[trigger] top[k] == all[k]
    &&& forall|k: int, l: int| 0 <= k < l < top.len() ==> !(#[trigger] type_before()(top[l], #[trigger] top[k]))
    &&& forall|i: int, j: int| 0 <= i < j < top.len() ==> #[trigger] top[i].extension != #[trigger] top[j].extension
    &&& forall|k: int, l: int|
        0 <= k < top.len() <= l < all.len() ==> !(#[trigger] type_before()(all[l], #[trigger] top[k]))
}

/// The number of hidden files among the entries.
pub open spec fn hidden_files(entries: Seq<FileEntry>) -> nat
    decreases entries.len(),
{
    if entries.len() == 0 {
        0
    } else {
        hidden_files(entries.drop_last()) + if !entries.last().is_dir && is_hidden(entries.last().path@) {
            1nat
        } else {
            0nat
        }
    }
}

proof fn lemma_counted_files(entries: Seq<FileEntry>)
    ensures
        counted_files(entries, true) == file_count(entries),
        hidden_files(entries) <= file_count(entries),
        counted_files(entries, false) == file_count(entries) - hidden_files(entries),
    decreases entries.len(),
{
    if entries.len() > 0 {
        lemma_counted_files(entries.drop_last());
    }
}

/// Every file is counted under some type, whatever its size: the file counts
/// of the statistics add up to the number of file entries, and without
/// hidden files to that number less the hidden ones.
pub proof fn lemma_types_count_every_file(entries: Seq<FileEntry>)
    ensures
        stats_files(type_stats(entries, true)) == file_count(entries),
        stats_files(type_stats(entries, false)) + hidden_files(entries) == file_count(entries),
{
    lemma_every_file_typed_once(entries, true);
    lemma_every_file_typed_once(entries, false);
    lemma_counted_files(entries);
}

} // verus!
