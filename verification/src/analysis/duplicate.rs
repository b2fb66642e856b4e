//! Duplicate files, found in two stages: only files that share their size
//! with another file are candidates, and candidates whose contents hash the
//! same (BLAKE3, computed by the application) and that have the same size
//! form a group. Within a group the shallowest, shortest path is the copy
//! recommended to keep.
use std::collections::HashMap;
use vstd::prelude::*;
use vstd::string::*;
use crate::analysis::{Finding, FindingKind, FindingView, RiskLevel};
use crate::analysis::rule::is_cleanable;
use crate::fs::metadata::FileEntry;
use crate::order::{
    is_stable_sort, lemma_stable_sort_from_input, lemma_stable_sort_keeps_input, lemma_stable_sort_len, stable_sort,
    strict_weak_order, view_seq, Duplicate,
};
use crate::paths::{components, path_components};
use crate::text::{decimal, push_number, str_chars, utf8_byte_len, utf8_len};

verus! {

broadcast use vstd::std_specs::hash::group_hash_axioms;

/// A file large enough to take part.
pub open spec fn eligible(e: FileEntry, min: u64) -> bool {
    !e.is_dir && e.size >= min
}

/// Number of taking-part files of the given size.
pub open spec fn size_count(entries: Seq<FileEntry>, size: u64, min: u64) -> nat
    decreases entries.len(),
{
    if entries.len() == 0 {
        0
    } else {
        size_count(entries.drop_last(), size, min) + if eligible(entries.last(), min)
            && entries.last().size == size {
            1nat
        } else {
            0nat
        }
    }
}

/// Entry `i` takes part and another taking-part file has its size, so its
/// contents must be hashed.
pub open spec fn is_candidate(entries: Seq<FileEntry>, i: int, min: u64) -> bool {
    eligible(entries[i], min) && size_count(entries, entries[i].size, min) >= 2
}

/// A group being formed: a content hash, a size and the paths found so far.
pub struct Row {
    pub hash: Seq<char>,
    pub size: u64,
    pub files: Seq<Seq<char>>,
}

/// Position of the first row with this hash and size, or -1.
pub open spec fn row_index(t: Seq<Row>, h: Seq<char>, s: u64) -> int
    decreases t.len(),
{
    if t.len() == 0 {
        -1
    } else if t[0].hash == h && t[0].size == s {
        0
    } else if row_index(t.drop_first(), h, s) < 0 {
        -1
    } else {
        1 + row_index(t.drop_first(), h, s)
    }
}

/// The rows formed by the first `k` entries: every hashed candidate joins
/// the row of its hash and size, or starts a new one; rows are in order of
/// first appearance.
pub open spec fn group_table(entries: Seq<FileEntry>, hashes: Seq<Option<Seq<char>>>, min: u64, k: nat) -> Seq<Row>
    decreases k,
{
    if k == 0 {
        seq![]
    } else {
        let t = group_table(entries, hashes, min, (k - 1) as nat);
        let i = k - 1;
        if is_candidate(entries, i, min) && hashes[i] is Some {
            let h = hashes[i]->0;
            let s = entries[i].size;
            let r = row_index(t, h, s);
            if r >= 0 {
                t.update(r, Row { files: t[r].files.push(entries[i].path@), ..t[r] })
            } else {
                t.push(Row { hash: h, size: s, files: seq![entries[i].path@] })
            }
        } else {
            t
        }
    }
}

/// The rows with more than one file, in order.
pub open spec fn kept_rows(t: Seq<Row>) -> Seq<Row>
    decreases t.len(),
{
    if t.len() == 0 {
        seq![]
    } else if t.last().files.len() > 1 {
        kept_rows(t.drop_last()).push(t.last())
    } else {
        kept_rows(t.drop_last())
    }
}

/// Fewer components first; equal counts, fewer UTF-8 bytes first.
pub open spec fn shorter_path() -> spec_fn(Seq<char>, Seq<char>) -> bool {
    |x: Seq<char>, y: Seq<char>|
        components(x).len() < components(y).len() || (components(x).len() == components(y).len()
            && utf8_len(x) < utf8_len(y))
}

/// A group of files with the same contents.
#[derive(Debug, Clone)]
pub struct DuplicateGroup {
    pub id: usize,
    pub hash: String,
    pub size: u64,
    pub files: Vec<String>,
    pub recommended_keep: String,
}

/// A group read as plain values.
pub struct GroupView {
    pub id: usize,
    pub hash: Seq<char>,
    pub size: u64,
    pub files: Seq<Seq<char>>,
    pub recommended_keep: Seq<char>,
}

impl View for DuplicateGroup {
    type V = GroupView;

    open spec fn view(&self) -> GroupView {
        GroupView {
            id: self.id,
            hash: self.hash@,
            size: self.size,
            files: self.files.deep_view(),
            recommended_keep: self.recommended_keep@,
        }
    }
}

fn copy_strings(v: &Vec<String>) -> (r: Vec<String>)
    ensures
        r.deep_view() == v.deep_view(),
{
    crate::text::copy_strings(v)
}

impl Duplicate for DuplicateGroup {
    fn duplicate(&self) -> (r: Self) {
        DuplicateGroup {
            id: self.id,
            hash: self.hash.clone(),
            size: self.size,
            files: copy_strings(&self.files),
            recommended_keep: self.recommended_keep.clone(),
        }
    }
}

/// The group formed from the `id`-th kept row, before the groups are ordered:
/// its files stably sorted by [`shorter_path`], the first one to keep.
pub open spec fn formed_group(g: GroupView, row: Row, id: int) -> bool {
    &&& g.id == id
    &&& g.hash == row.hash
    &&& g.size == row.size
    &&& is_stable_sort(g.files, row.files, shorter_path())
    &&& g.files.len() > 0
    &&& g.recommended_keep == g.files[0]
}

/// More wasted bytes first: size times number of files.
pub open spec fn group_before() -> spec_fn(GroupView, GroupView) -> bool {
    |x: GroupView, y: GroupView| x.size * x.files.len() > y.size * y.files.len()
}

/// The groups over the entries and hashes: the kept rows formed into groups
/// (numbered in order of first appearance), then stably ordered by
/// [`group_before`].
pub open spec fn duplicate_groups(r: Seq<GroupView>, entries: Seq<FileEntry>, hashes: Seq<Option<Seq<char>>>, min: u64) -> bool {
    let kept = kept_rows(group_table(entries, hashes, min, entries.len()));
    exists|pre: Seq<GroupView>|
        #![trigger pre.len()]
        pre.len() == kept.len() && (forall|k: int| 0 <= k < kept.len() ==> formed_group(#[trigger] pre[k], kept[k], k))
            && is_stable_sort(r, pre, group_before())
}

/// The hashes given per entry, read as plain values.
pub open spec fn hash_views(hashes: Seq<Option<String>>) -> Seq<Option<Seq<char>>> {
    hashes.map_values(|h: Option<String>| match h {
        Some(s) => Some(s@),
        None => None,
    })
}

/// The reason given for a duplicate.
pub open spec fn duplicate_reason(id: usize, keep: bool) -> Seq<char> {
    "duplicate group "@ + decimal(id as nat) + if keep {
        ", recommended file to keep"@
    } else {
        ", same blake3 hash"@
    }
}

/// The findings of one group: one per file, in the group's order; the file
/// with the components of the recommended one is kept (for review), the
/// others are safe to remove.
pub open spec fn group_findings(g: GroupView) -> Seq<FindingView> {
    Seq::new(
        g.files.len(),
        |k: int|
            {
                let keep = components(g.files[k]) == components(g.recommended_keep);
                FindingView {
                    path: g.files[k],
                    kind: FindingKind::DuplicateCandidate { group_id: g.id, keep },
                    size: g.size,
                    risk: if keep {
                        RiskLevel::Review
                    } else {
                        RiskLevel::Safe
                    },
                    reason: duplicate_reason(g.id, keep),
                }
            },
    )
}

/// The findings of the groups, group after group.
pub open spec fn all_group_findings(gs: Seq<GroupView>) -> Seq<FindingView>
    decreases gs.len(),
{
    if gs.len() == 0 {
        seq![]
    } else {
        all_group_findings(gs.drop_last()) + group_findings(gs.last())
    }
}

/// A row being formed, with its paths.
struct RowBuf {
    hash: String,
    size: u64,
    files: Vec<String>,
}

impl RowBuf {
    spec fn row(&self) -> Row {
        Row { hash: self.hash@, size: self.size, files: self.files.deep_view() }
    }
}

proof fn lemma_row_index(t: Seq<Row>, h: Seq<char>, s: u64, k: int)
    requires
        0 <= k <= t.len(),
        forall|j: int| 0 <= j < k ==> !(#[trigger] t[j].hash == h && t[j].size == s),
    ensures
        k < t.len() && t[k].hash == h && t[k].size == s ==> row_index(t, h, s) == k,
        k == t.len() ==> row_index(t, h, s) == -1,
    decreases k,
{
    if k > 0 {
        let d = t.drop_first();
        assert forall|j: int| 0 <= j < k - 1 implies !(#[trigger] d[j].hash == h && d[j].size == s) by {
            assert(d[j] == t[j + 1]);
        }
        lemma_row_index(d, h, s, k - 1);
    }
}

proof fn lemma_kept_rows_nonempty(t: Seq<Row>)
    ensures
        forall|k: int| 0 <= k < kept_rows(t).len() ==> #[trigger] kept_rows(t)[k].files.len() > 1,
    decreases t.len(),
{
    if t.len() > 0 {
        lemma_kept_rows_nonempty(t.drop_last());
        let p = kept_rows(t.drop_last());
        assert forall|k: int| 0 <= k < kept_rows(t).len() implies #[trigger] kept_rows(t)[k].files.len() > 1 by {
            if k < p.len() {
                assert(kept_rows(t)[k] == p[k]);
            }
        }
    }
}

/// Finds duplicate files.
#[derive(Debug, Clone)]
pub struct DuplicateAnalyzer {
    min_size: u64,
}

impl DuplicateAnalyzer {
    /// The smallest size taking part.
    pub closed spec fn threshold(&self) -> u64 {
        self.min_size
    }

    /// An analyzer for files of at least `min_size` bytes.
    pub fn new(min_size: u64) -> (r: Self)
        ensures
            r.threshold() == min_size,
    {
        DuplicateAnalyzer { min_size }
    }

    /// The analyzer's name.
    pub fn name(&self) -> (r: &'static str)
        ensures
            r@ == "duplicate"@,
    {
        "duplicate"
    }

    /// Which entries need their contents hashed: the files of at least the
    /// threshold that share their size with another such file.
    pub fn hash_targets(&self, entries: &[FileEntry]) -> (r: Vec<bool>)
        ensures
            r@.len() == entries@.len(),
            forall|i: int| 0 <= i < entries@.len() ==> #[trigger] r@[i] == is_candidate(entries@, i, self.threshold()),
    {
        let mut counts: HashMap<u64, usize> = HashMap::new();
        let mut i: usize = 0;
        while i < entries.len()
            invariant
                i <= entries@.len(),
                forall|s: u64| #[trigger] counts@.contains_key(s) ==> counts@[s] == size_count(entries@.take(i as int), s, self.min_size),
                forall|s: u64| !#[trigger] counts@.contains_key(s) ==> size_count(entries@.take(i as int), s, self.min_size) == 0,
                forall|s: u64| #[trigger] counts@.contains_key(s) ==> counts@[s] <= i,
            decreases entries.len() - i,
        {
            assert(entries@.take(i + 1).drop_last() =~= entries@.take(i as int));
            let e = &entries[i];
            if e.is_file() && e.size >= self.min_size {
                let c: usize = match counts.get(&e.size) {
                    Some(c) => *c,
                    None => 0,
                };
                counts.insert(e.size, c + 1);
            }
            i = i + 1;
        }
        assert(entries@.take(entries@.len() as int) =~= entries@);
        let mut out: Vec<bool> = Vec::new();
        let mut k: usize = 0;
        while k < entries.len()
            invariant
                k <= entries@.len(),
                forall|s: u64| #[trigger] counts@.contains_key(s) ==> counts@[s] == size_count(entries@, s, self.min_size),
                forall|s: u64| !#[trigger] counts@.contains_key(s) ==> size_count(entries@, s, self.min_size) == 0,
                out@.len() == k,
                forall|j: int| 0 <= j < k ==> #[trigger] out@[j] == is_candidate(entries@, j, self.min_size),
            decreases entries.len() - k,
        {
            let e = &entries[k];
            let many = match counts.get(&e.size) {
                Some(c) => *c >= 2,
                None => false,
            };
            out.push(e.is_file() && e.size >= self.min_size && many);
            k = k + 1;
        }
        out
    }

    /// The duplicate groups over the entries, given the content hash of each
    /// candidate (`hashes[i]` for entry `i`; `None` when it could not be
    /// read, and ignored for entries that are not candidates). Candidates of
    /// equal hash and size form a group when there are at least two; groups
    /// are numbered in order of first appearance, their files ordered by
    /// [`shorter_path`] with the first recommended to keep, and the groups
    /// ordered by size times number of files, largest first.
    pub fn groups(&self, entries: &[FileEntry], hashes: &Vec<Option<String>>) -> (r: Vec<DuplicateGroup>)
        requires
            hashes@.len() == entries@.len(),
        ensures
            duplicate_groups(view_seq(r@), entries@, hash_views(hashes@), self.threshold()),
    {
        let targets = self.hash_targets(entries);
        let ghost hv = hash_views(hashes@);
        let mut rows: Vec<RowBuf> = Vec::new();
        let mut i: usize = 0;
        while i < entries.len()
            invariant
                i <= entries@.len(),
                hashes@.len() == entries@.len(),
                targets@.len() == entries@.len(),
                hv == hash_views(hashes@),
                forall|j: int| 0 <= j < entries@.len() ==> #[trigger] targets@[j] == is_candidate(entries@, j, self.min_size),
                rows@.len() == group_table(entries@, hv, self.min_size, i as nat).len(),
                forall|k: int| 0 <= k < rows@.len() ==> #[trigger] rows@[k].row() == group_table(entries@, hv, self.min_size, i as nat)[k],
            decreases entries.len() - i,
        {
            let ghost t = group_table(entries@, hv, self.min_size, i as nat);
            assert(hv[i as int] == match hashes@[i as int] {
                Some(s) => Some(s@),
                None => None::<Seq<char>>,
            });
            if targets[i] {
                match &hashes[i] {
                    Some(h) => {
                        let size = entries[i].size;
                        let mut k: usize = 0;
                        while k < rows.len() && !(rows[k].size == size && crate::text::str_equal(rows[k].hash.as_str(), h.as_str()))
                            invariant
                                k <= rows@.len(),
                                rows@.len() == t.len(),
                                forall|j: int| 0 <= j < rows@.len() ==> #[trigger] rows@[j].row() == t[j],
                                forall|j: int| 0 <= j < k ==> !(#[trigger] t[j].hash == h@ && t[j].size == size),
                            decreases rows.len() - k,
                        {
                            assert(rows@[k as int].row() == t[k as int]);
                            k = k + 1;
                        }
                        proof {
                            lemma_row_index(t, h@, size, k as int);
                            assert(hashes@[i as int] == Some(*h));
                            assert(hv[i as int] == Some(h@));
                            assert(is_candidate(entries@, i as int, self.min_size));
                            if k < rows@.len() {
                                assert(rows@[k as int].row() == t[k as int]);
                            }
                        }
                        let path = entries[i].path.clone();
                        if k < rows.len() {
                            let mut row = rows.remove(k);
                            let ghost before = row.files.deep_view();
                            row.files.push(path);
                            assert(row.files.deep_view() =~= before.push(entries@[i as int].path@));
                            rows.insert(k, row);
                            proof {
                                let t2 = group_table(entries@, hv, self.min_size, (i + 1) as nat);
                                assert(t2 =~= t.update(k as int, Row { files: t[k as int].files.push(entries@[i as int].path@), ..t[k as int] }));
                                assert forall|j: int| 0 <= j < rows@.len() implies #[trigger] rows@[j].row() == t2[j] by {
                                    if j != k {
                                        assert(rows@[j].row() == t[j]);
                                    }
                                }
                            }
                        } else {
                            let mut files: Vec<String> = Vec::new();
                            files.push(path);
                            assert(files.deep_view() =~= seq![entries@[i as int].path@]);
                            rows.push(RowBuf { hash: h.clone(), size, files });
                            proof {
                                let t2 = group_table(entries@, hv, self.min_size, (i + 1) as nat);
                                assert(t2 =~= t.push(Row { hash: h@, size, files: seq![entries@[i as int].path@] }));
                                assert forall|j: int| 0 <= j < rows@.len() implies #[trigger] rows@[j].row() == t2[j] by {
                                    if j < t.len() {
                                        assert(rows@[j].row() == t[j]);
                                    }
                                }
                            }
                        }
                    },
                    None => {},
                }
            }
            i = i + 1;
        }
        let ghost table = group_table(entries@, hv, self.min_size, entries@.len() as nat);
        // keep the rows with more than one file and form the groups
        let mut pre: Vec<DuplicateGroup> = Vec::new();
        let mut kept_count: usize = 0;
        let mut k: usize = 0;
        let n = rows.len();
        let shorter = |x: &String, y: &String| -> (res: bool)
            ensures
                res == shorter_path()(x@, y@),
            {
                let a = str_chars(x.as_str());
                let b = str_chars(y.as_str());
                let pa = path_components(&a);
                let pb = path_components(&b);
                proof {
                    assert(pa.deep_view().len() == pa@.len());
                    assert(pb.deep_view().len() == pb@.len());
                }
                let ca = pa.len();
                let cb = pb.len();
                ca < cb || (ca == cb && utf8_byte_len(x.as_str()) < utf8_byte_len(y.as_str()))
            };
        assert(strict_weak_order(shorter_path()));
        while k < n
            invariant
                n == rows@.len(),
                rows@.len() == table.len(),
                table == group_table(entries@, hv, self.min_size, entries@.len() as nat),
                forall|j: int| 0 <= j < rows@.len() ==> #[trigger] rows@[j].row() == table[j],
                k <= n,
                kept_count == pre@.len(),
                kept_count <= k,
                forall|x: &String, y: &String| #[trigger] call_requires(shorter, (x, y)),
                pre@.len() == kept_rows(table.take(k as int)).len(),
                forall|j: int| 0 <= j < pre@.len() ==> formed_group(#[trigger] pre@[j]@, kept_rows(table.take(k as int))[j], j),
                forall|x: &String, y: &String, res: bool| #[trigger] call_ensures(shorter, (x, y), res) ==> res == shorter_path()(x@, y@),
                strict_weak_order(shorter_path()),
            decreases n - k,
        {
            assert(table.take(k + 1).drop_last() =~= table.take(k as int));
            assert(table.take(k + 1).last() == table[k as int]);
            if rows[k].files.len() > 1 {
                assert(rows@[k as int].files.deep_view().len() == rows@[k as int].files@.len());
                let sorted = stable_sort(&rows[k].files, &shorter, Ghost(shorter_path()));
                proof {
                    assert(view_seq(rows@[k as int].files@) =~= rows@[k as int].files.deep_view());
                    assert(view_seq(sorted@) =~= sorted.deep_view());
                }
                let keep = sorted[0].clone();
                let g = DuplicateGroup {
                    id: kept_count,
                    hash: rows[k].hash.clone(),
                    size: rows[k].size,
                    files: sorted,
                    recommended_keep: keep,
                };
                proof {
                    assert(g@.files.len() == rows@[k as int].files@.len()) by {
                        crate::order::lemma_stable_sort_len(g@.files, rows@[k as int].files.deep_view(), shorter_path());
                    }
                    assert(g@.files[0] == g.files@[0]@);
                }
                let ghost before = pre@;
                pre.push(g);
                kept_count = kept_count + 1;
                proof {
                    let kr = kept_rows(table.take(k + 1));
                    assert(rows@[k as int].row() == table[k as int]);
                    assert(table[k as int].files.len() > 1);
                    assert(kr == kept_rows(table.take(k as int)).push(table[k as int]));
                    assert forall|j: int| 0 <= j < pre@.len() implies formed_group(#[trigger] pre@[j]@, kr[j], j) by {
                        if j < before.len() {
                            assert(pre@[j] == before[j]);
                        }
                    }
                }
            } else {
                proof {
                    assert(rows@[k as int].row() == table[k as int]);
                    assert(rows@[k as int].files.deep_view().len() == rows@[k as int].files@.len());
                    assert(kept_rows(table.take(k + 1)) == kept_rows(table.take(k as int)));
                }
            }
            k = k + 1;
        }
        assert(table.take(n as int) =~= table);
        let by_waste = |x: &DuplicateGroup, y: &DuplicateGroup| -> (res: bool)
            ensures
                res == group_before()(x@, y@),
            {
                let xs = x.size as u128;
                let xl = x.files.len() as u128;
                let ys = y.size as u128;
                let yl = y.files.len() as u128;
                proof {
                    assert(x.files.deep_view().len() == x.files@.len());
                    assert(y.files.deep_view().len() == y.files@.len());
                    assert(xs * xl <= 0xffff_ffff_ffff_ffffu128 * 0xffff_ffff_ffff_ffffu128) by (nonlinear_arith)
                        requires
                            xs <= 0xffff_ffff_ffff_ffffu128,
                            xl <= 0xffff_ffff_ffff_ffffu128,
                    ;
                    assert(ys * yl <= 0xffff_ffff_ffff_ffffu128 * 0xffff_ffff_ffff_ffffu128) by (nonlinear_arith)
                        requires
                            ys <= 0xffff_ffff_ffff_ffffu128,
                            yl <= 0xffff_ffff_ffff_ffffu128,
                    ;
                }
                let wx = xs * xl;
                let wy = ys * yl;
                wx > wy
            };
        assert(strict_weak_order(group_before()));
        let r = stable_sort(&pre, &by_waste, Ghost(group_before()));
        proof {
            let kept = kept_rows(table);
            assert(view_seq(pre@).len() == kept.len());
            assert forall|j: int| 0 <= j < kept.len() implies formed_group(#[trigger] view_seq(pre@)[j], kept[j], j) by {
                assert(view_seq(pre@)[j] == pre@[j]@);
            }
        }
        r
    }

    /// The findings of the duplicate groups over the entries (see
    /// [`DuplicateAnalyzer::groups`]): one per file, group after group.
    pub fn analyze(&self, entries: &[FileEntry], hashes: &Vec<Option<String>>) -> (r: Vec<Finding>)
        requires
            hashes@.len() == entries@.len(),
        ensures
            exists|gs: Seq<GroupView>|
                duplicate_groups(gs, entries@, hash_views(hashes@), self.threshold())
                    && view_seq(r@) == #[trigger] all_group_findings(gs),
    {
        let groups = self.groups(entries, hashes);
        let r = findings_of_groups(&groups);
        r
    }
}

/// The findings of the groups, group after group.
pub fn findings_of_groups(groups: &Vec<DuplicateGroup>) -> (r: Vec<Finding>)
    ensures
        view_seq(r@) == all_group_findings(view_seq(groups@)),
{
    let mut out: Vec<Finding> = Vec::new();
    let mut g: usize = 0;
    while g < groups.len()
        invariant
            g <= groups@.len(),
            view_seq(out@) == all_group_findings(view_seq(groups@.take(g as int))),
        decreases groups.len() - g,
    {
        assert(view_seq(groups@.take(g + 1)).drop_last() =~= view_seq(groups@.take(g as int)));
        let group = &groups[g];
        let keep_chars = str_chars(group.recommended_keep.as_str());
        let keep_comps = path_components(&keep_chars);
        let ghost start = view_seq(out@);
        let ghost gf = group_findings(group@);
        let mut k: usize = 0;
        while k < group.files.len()
            invariant
                k <= group.files@.len(),
                group.files.deep_view().len() == group.files@.len(),
                keep_comps.deep_view() == components(group.recommended_keep@),
                gf == group_findings(group@),
                view_seq(out@) == start + gf.take(k as int),
            decreases group.files.len() - k,
        {
            let path = &group.files[k];
            let pc_chars = str_chars(path.as_str());
            let pc = path_components(&pc_chars);
            let keep = crate::fs::safety::same_components(&pc, &keep_comps);
            let mut reason = String::new();
            reason.append("duplicate group ");
            push_number(&mut reason, group.id as u64);
            if keep {
                reason.append(", recommended file to keep");
            } else {
                reason.append(", same blake3 hash");
            }
            let f = Finding {
                path: path.clone(),
                kind: FindingKind::DuplicateCandidate { group_id: group.id, keep },
                size: group.size,
                risk: if keep {
                    RiskLevel::Review
                } else {
                    RiskLevel::Safe
                },
                reason,
            };
            proof {
                assert(group.files.deep_view()[k as int] == path@);
                assert(f@ == gf[k as int]);
            }
            let ghost before = view_seq(out@);
            let ghost fv = f@;
            out.push(f);
            assert(view_seq(out@) =~= before.push(fv));
            assert(gf.take(k + 1) =~= gf.take(k as int).push(gf[k as int]));
            assert(view_seq(out@) =~= start + gf.take(k + 1));
            k = k + 1;
        }
        assert(gf.take(group.files@.len() as int) =~= gf);
        g = g + 1;
    }
    assert(groups@.take(groups@.len() as int) =~= groups@);
    out
}

/// Every duplicate group holds at least two files, and the file it
/// recommends to keep is its first one, the shallowest and shortest.
pub proof fn lemma_groups_have_copies(
    r: Seq<GroupView>,
    entries: Seq<FileEntry>,
    hashes: Seq<Option<Seq<char>>>,
    min: u64,
)
    requires
        duplicate_groups(r, entries, hashes, min),
    ensures
        forall|k: int|
            0 <= k < r.len() ==> #[trigger] r[k].files.len() >= 2 && r[k].recommended_keep == r[k].files[0],
{
    let t = group_table(entries, hashes, min, entries.len());
    let kept = kept_rows(t);
    lemma_kept_rows_nonempty(t);
    let pre = choose|pre: Seq<GroupView>|
        #![trigger pre.len()]
        pre.len() == kept.len() && (forall|k: int| 0 <= k < kept.len() ==> formed_group(#[trigger] pre[k], kept[k], k))
            && is_stable_sort(r, pre, group_before());
    assert forall|k: int| 0 <= k < r.len() implies #[trigger] r[k].files.len() >= 2 && r[k].recommended_keep
        == r[k].files[0] by {
        lemma_stable_sort_from_input(r, pre, group_before(), k);
        let j = choose|j: int| 0 <= j < pre.len() && r[k] == #[trigger] pre[j];
        assert(formed_group(pre[j], kept[j], j));
        assert(kept[j].files.len() > 1);
        lemma_stable_sort_len(pre[j].files, kept[j].files, shorter_path());
    }
}

/// Every duplicate group keeps a copy: the finding of its first file, the
/// one recommended to keep, is marked to keep and never enters a cleanup
/// plan.
pub proof fn lemma_group_keeps_a_copy(g: GroupView)
    requires
        g.files.len() > 0,
        g.recommended_keep == g.files[0],
    ensures
        group_findings(g)[0].kind == (FindingKind::DuplicateCandidate { group_id: g.id, keep: true }),
        group_findings(g)[0].risk == RiskLevel::Review,
        !is_cleanable(group_findings(g)[0]),
{
}

/// Entry `i` is a candidate with content hash `h` and size `size`.
spec fn keyed(entries: Seq<FileEntry>, hashes: Seq<Option<Seq<char>>>, min: u64, i: int, h: Seq<char>, size: u64) -> bool {
    is_candidate(entries, i, min) && hashes[i] == Some(h) && entries[i].size == size
}

/// The paths of the first `k` entries that are candidates with hash `h` and
/// size `size`, in order.
spec fn key_paths(entries: Seq<FileEntry>, hashes: Seq<Option<Seq<char>>>, min: u64, k: nat, h: Seq<char>, size: u64) -> Seq<Seq<char>>
    decreases k,
{
    if k == 0 {
        seq![]
    } else {
        let rest = key_paths(entries, hashes, min, (k - 1) as nat, h, size);
        if keyed(entries, hashes, min, k - 1, h, size) {
            rest.push(entries[k - 1].path@)
        } else {
            rest
        }
    }
}

proof fn lemma_row_index_range(t: Seq<Row>, h: Seq<char>, s: u64)
    ensures
        row_index(t, h, s) < t.len(),
        row_index(t, h, s) >= 0 ==> t[row_index(t, h, s)].hash == h && t[row_index(t, h, s)].size == s,
        row_index(t, h, s) < 0 ==> forall|j: int| 0 <= j < t.len() ==> !(#[trigger] t[j].hash == h && t[j].size == s),
    decreases t.len(),
{
    if t.len() > 0 {
        let d = t.drop_first();
        lemma_row_index_range(d, h, s);
        if !(t[0].hash == h && t[0].size == s) && row_index(d, h, s) >= 0 {
            assert(t[row_index(t, h, s)] == d[row_index(d, h, s)]);
        }
        if row_index(t, h, s) < 0 {
            assert forall|j: int| 0 <= j < t.len() implies !(#[trigger] t[j].hash == h && t[j].size == s) by {
                if j > 0 {
                    assert(t[j] == d[j - 1]);
                }
            }
        }
    }
}

proof fn lemma_key_paths_nonempty(
    entries: Seq<FileEntry>,
    hashes: Seq<Option<Seq<char>>>,
    min: u64,
    k: nat,
    h: Seq<char>,
    size: u64,
)
    requires
        key_paths(entries, hashes, min, k, h, size).len() > 0,
    ensures
        exists|i: int| 0 <= i < k && keyed(entries, hashes, min, i, h, size),
    decreases k,
{
    if !keyed(entries, hashes, min, k - 1, h, size) {
        lemma_key_paths_nonempty(entries, hashes, min, (k - 1) as nat, h, size);
        let i = choose|i: int| 0 <= i < k - 1 && keyed(entries, hashes, min, i, h, size);
        assert(0 <= i < k);
    }
}

/// The rows after `k` entries: each holds the paths of its key, keys are
/// distinct, and every hashed candidate has the row of its key.
proof fn lemma_group_table_rows(entries: Seq<FileEntry>, hashes: Seq<Option<Seq<char>>>, min: u64, k: nat)
    requires
        k <= entries.len(),
        hashes.len() == entries.len(),
    ensures
        ({
            let t = group_table(entries, hashes, min, k);
            &&& forall|r: int|
                0 <= r < t.len() ==> #[trigger] t[r].files == key_paths(entries, hashes, min, k, t[r].hash, t[r].size)
            &&& forall|a: int, b: int|
                0 <= a < b < t.len() ==> !(#[trigger] t[a].hash == #[trigger] t[b].hash && t[a].size == t[b].size)
            &&& forall|i: int|
                0 <= i < k && is_candidate(entries, i, min) && #[trigger] hashes[i] is Some ==> exists|r: int|
                    0 <= r < t.len() && t[r].hash == hashes[i]->0 && t[r].size == entries[i].size
        }),
    decreases k,
{
    if k > 0 {
        lemma_group_table_rows(entries, hashes, min, (k - 1) as nat);
        let t = group_table(entries, hashes, min, (k - 1) as nat);
        let nt = group_table(entries, hashes, min, k);
        let i = k - 1;
        if is_candidate(entries, i, min) && hashes[i] is Some {
            let h = hashes[i]->0;
            let s = entries[i].size;
            lemma_row_index_range(t, h, s);
            let ri = row_index(t, h, s);
            if ri >= 0 {
                assert(nt == t.update(ri, Row { files: t[ri].files.push(entries[i].path@), ..t[ri] }));
                assert forall|r: int|
                    0 <= r < nt.len() implies #[trigger] nt[r].files == key_paths(entries, hashes, min, k, nt[r].hash, nt[r].size) by {
                    if r != ri {
                        assert(nt[r] == t[r]);
                        assert(!(t[r].hash == h && t[r].size == s));
                    }
                }
                assert forall|a: int, b: int|
                    0 <= a < b < nt.len() implies !(#[trigger] nt[a].hash == #[trigger] nt[b].hash && nt[a].size == nt[b].size) by {
                    assert(nt[a].hash == t[a].hash && nt[a].size == t[a].size);
                    assert(nt[b].hash == t[b].hash && nt[b].size == t[b].size);
                }
                assert forall|j: int|
                    0 <= j < k && is_candidate(entries, j, min) && #[trigger] hashes[j] is Some implies exists|r: int|
                        0 <= r < nt.len() && nt[r].hash == hashes[j]->0 && nt[r].size == entries[j].size by {
                    if j < k - 1 {
                        let r = choose|r: int| 0 <= r < t.len() && t[r].hash == hashes[j]->0 && t[r].size == entries[j].size;
                        assert(nt[r].hash == t[r].hash && nt[r].size == t[r].size);
                    } else {
                        assert(nt[ri].hash == h && nt[ri].size == s);
                    }
                }
            } else {
                let row = Row { hash: h, size: s, files: seq![entries[i].path@] };
                assert(nt == t.push(row));
                if key_paths(entries, hashes, min, (k - 1) as nat, h, s).len() > 0 {
                    lemma_key_paths_nonempty(entries, hashes, min, (k - 1) as nat, h, s);
                    let j = choose|j: int| 0 <= j < k - 1 && keyed(entries, hashes, min, j, h, s);
                    assert(hashes[j] is Some);
                    let r = choose|r: int| 0 <= r < t.len() && t[r].hash == hashes[j]->0 && t[r].size == entries[j].size;
                    assert(t[r].hash == h && t[r].size == s);
                }
                assert(key_paths(entries, hashes, min, k, h, s) =~= seq![entries[i].path@]);
                assert forall|r: int|
                    0 <= r < nt.len() implies #[trigger] nt[r].files == key_paths(entries, hashes, min, k, nt[r].hash, nt[r].size) by {
                    if r < t.len() {
                        assert(nt[r] == t[r]);
                        assert(!(t[r].hash == h && t[r].size == s));
                    }
                }
                assert forall|a: int, b: int|
                    0 <= a < b < nt.len() implies !(#[trigger] nt[a].hash == #[trigger] nt[b].hash && nt[a].size == nt[b].size) by {
                    assert(nt[a] == t[a]);
                    if b < t.len() {
                        assert(nt[b] == t[b]);
                    }
                }
                assert forall|j: int|
                    0 <= j < k && is_candidate(entries, j, min) && #[trigger] hashes[j] is Some implies exists|r: int|
                        0 <= r < nt.len() && nt[r].hash == hashes[j]->0 && nt[r].size == entries[j].size by {
                    if j < k - 1 {
                        let r = choose|r: int| 0 <= r < t.len() && t[r].hash == hashes[j]->0 && t[r].size == entries[j].size;
                        assert(nt[r] == t[r]);
                    } else {
                        assert(nt[t.len() as int] == row);
                    }
                }
            }
        } else {
            assert(nt == t);
            assert forall|r: int|
                0 <= r < nt.len() implies #[trigger] nt[r].files == key_paths(entries, hashes, min, k, nt[r].hash, nt[r].size) by {
                assert(!keyed(entries, hashes, min, k - 1, nt[r].hash, nt[r].size));
            }
            assert forall|j: int|
                0 <= j < k && is_candidate(entries, j, min) && #[trigger] hashes[j] is Some implies exists|r: int|
                    0 <= r < nt.len() && nt[r].hash == hashes[j]->0 && nt[r].size == entries[j].size by {
                assert(j < k - 1);
            }
        }
    }
}

/// Two files of the same size, both taking part, make their size a
/// candidate size.
proof fn lemma_size_count_two(entries: Seq<FileEntry>, size: u64, min: u64, i: int, j: int)
    requires
        0 <= i < j < entries.len(),
        eligible(entries[i], min),
        eligible(entries[j], min),
        entries[i].size == size,
        entries[j].size == size,
    ensures
        size_count(entries, size, min) >= 2,
    decreases entries.len(),
{
    let d = entries.drop_last();
    if j == entries.len() - 1 {
        assert(d[i] == entries[i]);
        lemma_size_count_one(d, size, min, i);
    } else {
        assert(d[i] == entries[i]);
        assert(d[j] == entries[j]);
        lemma_size_count_two(d, size, min, i, j);
    }
}

proof fn lemma_size_count_one(entries: Seq<FileEntry>, size: u64, min: u64, i: int)
    requires
        0 <= i < entries.len(),
        eligible(entries[i], min),
        entries[i].size == size,
    ensures
        size_count(entries, size, min) >= 1,
    decreases entries.len(),
{
    if i < entries.len() - 1 {
        assert(entries.drop_last()[i] == entries[i]);
        lemma_size_count_one(entries.drop_last(), size, min, i);
    }
}

/// Two files of the same size that both take part (files of at least the
/// minimum size) are both hashed, wherever they are among the entries.
pub proof fn lemma_equal_sizes_hashed(entries: Seq<FileEntry>, min: u64, i: int, j: int)
    requires
        0 <= i < entries.len(),
        0 <= j < entries.len(),
        i != j,
        !entries[i].is_dir,
        !entries[j].is_dir,
        entries[i].size >= min,
        entries[i].size == entries[j].size,
    ensures
        is_candidate(entries, i, min),
        is_candidate(entries, j, min),
{
    if i < j {
        lemma_size_count_two(entries, entries[i].size, min, i, j);
    } else {
        lemma_size_count_two(entries, entries[i].size, min, j, i);
    }
}

proof fn lemma_key_paths_two(
    entries: Seq<FileEntry>,
    hashes: Seq<Option<Seq<char>>>,
    min: u64,
    k: nat,
    h: Seq<char>,
    size: u64,
    i: int,
    j: int,
)
    requires
        0 <= i < j < k,
        keyed(entries, hashes, min, i, h, size),
        keyed(entries, hashes, min, j, h, size),
    ensures
        key_paths(entries, hashes, min, k, h, size).len() >= 2,
        key_paths(entries, hashes, min, k, h, size).contains(entries[i].path@),
        key_paths(entries, hashes, min, k, h, size).contains(entries[j].path@),
    decreases k,
{
    let rest = key_paths(entries, hashes, min, (k - 1) as nat, h, size);
    let kp = key_paths(entries, hashes, min, k, h, size);
    if j == k - 1 {
        lemma_key_paths_one(entries, hashes, min, (k - 1) as nat, h, size, i);
        let a = choose|a: int| 0 <= a < rest.len() && rest[a] == entries[i].path@;
        assert(kp[a] == rest[a]);
        assert(kp[rest.len() as int] == entries[j].path@);
    } else {
        lemma_key_paths_two(entries, hashes, min, (k - 1) as nat, h, size, i, j);
        let a = choose|a: int| 0 <= a < rest.len() && rest[a] == entries[i].path@;
        let b = choose|b: int| 0 <= b < rest.len() && rest[b] == entries[j].path@;
        if keyed(entries, hashes, min, k - 1, h, size) {
            assert(kp[a] == rest[a]);
            assert(kp[b] == rest[b]);
        }
    }
}

proof fn lemma_key_paths_one(
    entries: Seq<FileEntry>,
    hashes: Seq<Option<Seq<char>>>,
    min: u64,
    k: nat,
    h: Seq<char>,
    size: u64,
    i: int,
)
    requires
        0 <= i < k,
        keyed(entries, hashes, min, i, h, size),
    ensures
        key_paths(entries, hashes, min, k, h, size).contains(entries[i].path@),
    decreases k,
{
    let rest = key_paths(entries, hashes, min, (k - 1) as nat, h, size);
    let kp = key_paths(entries, hashes, min, k, h, size);
    if i == k - 1 {
        assert(kp[rest.len() as int] == entries[i].path@);
    } else {
        lemma_key_paths_one(entries, hashes, min, (k - 1) as nat, h, size, i);
        let a = choose|a: int| 0 <= a < rest.len() && rest[a] == entries[i].path@;
        if keyed(entries, hashes, min, k - 1, h, size) {
            assert(kp[a] == rest[a]);
        }
    }
}

proof fn lemma_kept_rows_has(t: Seq<Row>, r: int)
    requires
        0 <= r < t.len(),
        t[r].files.len() > 1,
    ensures
        exists|m: int| 0 <= m < kept_rows(t).len() && #[trigger] kept_rows(t)[m] == t[r],
    decreases t.len(),
{
    let d = t.drop_last();
    let kd = kept_rows(d);
    if r == t.len() - 1 {
        let kt = kept_rows(t);
        assert(kt == kd.push(t.last()));
        assert(kt[kd.len() as int] == t[r]);
    } else {
        assert(d[r] == t[r]);
        lemma_kept_rows_has(d, r);
        let m = choose|m: int| 0 <= m < kd.len() && #[trigger] kd[m] == d[r];
        let kt = kept_rows(t);
        if t.last().files.len() > 1 {
            assert(kt == kd.push(t.last()));
            assert(kt[m] == kd[m]);
        } else {
            assert(kt == kd);
            assert(kt[m] == kd[m]);
        }
    }
}

/// Two files with the same size and the same content hash, both taking
/// part, end up in one duplicate group, which holds that hash and size.
pub proof fn lemma_equal_files_grouped(
    r: Seq<GroupView>,
    entries: Seq<FileEntry>,
    hashes: Seq<Option<Seq<char>>>,
    min: u64,
    i: int,
    j: int,
    h: Seq<char>,
)
    requires
        duplicate_groups(r, entries, hashes, min),
        hashes.len() == entries.len(),
        0 <= i < j < entries.len(),
        !entries[i].is_dir,
        !entries[j].is_dir,
        entries[i].size >= min,
        entries[i].size == entries[j].size,
        hashes[i] == Some(h),
        hashes[j] == Some(h),
    ensures
        exists|g: int|
            0 <= g < r.len() && (#[trigger] r[g]).files.contains(entries[i].path@) && r[g].files.contains(
                entries[j].path@,
            ) && r[g].hash == h && r[g].size == entries[i].size,
{
    let s = entries[i].size;
    lemma_equal_sizes_hashed(entries, min, i, j);
    let n = entries.len();
    lemma_group_table_rows(entries, hashes, min, n);
    let t = group_table(entries, hashes, min, n);
    assert(hashes[i] is Some);
    let row = choose|q: int| 0 <= q < t.len() && t[q].hash == hashes[i]->0 && t[q].size == entries[i].size;
    assert(t[row].files == key_paths(entries, hashes, min, n, h, s));
    lemma_key_paths_two(entries, hashes, min, n, h, s, i, j);
    lemma_kept_rows_has(t, row);
    let kept = kept_rows(t);
    let m = choose|m: int| 0 <= m < kept.len() && #[trigger] kept[m] == t[row];
    let pre = choose|pre: Seq<GroupView>|
        #![trigger pre.len()]
        pre.len() == kept.len() && (forall|k: int| 0 <= k < kept.len() ==> formed_group(#[trigger] pre[k], kept[k], k))
            && is_stable_sort(r, pre, group_before());
    assert(formed_group(pre[m], kept[m], m));
    let files = kept[m].files;
    let a = choose|a: int| 0 <= a < files.len() && files[a] == entries[i].path@;
    let b = choose|b: int| 0 <= b < files.len() && files[b] == entries[j].path@;
    lemma_stable_sort_keeps_input(pre[m].files, files, shorter_path(), a);
    lemma_stable_sort_keeps_input(pre[m].files, files, shorter_path(), b);
    lemma_stable_sort_keeps_input(r, pre, group_before(), m);
    let g = choose|g: int| 0 <= g < r.len() && #[trigger] r[g] == pre[m];
    let x = choose|x: int| 0 <= x < pre[m].files.len() && #[trigger] pre[m].files[x] == files[a];
    let y = choose|y: int| 0 <= y < pre[m].files.len() && #[trigger] pre[m].files[y] == files[b];
    assert(r[g].files[x] == entries[i].path@);
    assert(r[g].files[y] == entries[j].path@);
}

} // verus!
