//! Large files: reported for review, never cleaned automatically.
use vstd::prelude::*;
use vstd::string::*;
use crate::analysis::{larger_first, Analyzer, Finding, FindingKind, FindingView, RiskLevel};
use crate::fs::metadata::FileEntry;
use crate::order::{
    is_stable_sort, lemma_stable_sort_from_input, lemma_stable_sort_keeps_input, stable_sort, strict_weak_order, view_seq,
};
use crate::text::{decimal, push_number};

verus! {

/// The reason given for a large file.
pub open spec fn large_reason(min: u64) -> Seq<char> {
    "file size is greater than or equal to "@ + decimal(min as nat) + " bytes"@
}

/// The finding for a large file.
pub open spec fn large_finding(e: FileEntry, min: u64) -> FindingView {
    FindingView {
        path: e.path@,
        kind: FindingKind::LargeFile,
        size: e.size,
        risk: RiskLevel::Review,
        reason: large_reason(min),
    }
}

/// The findings for the files of at least `min` bytes, in scan order.
pub open spec fn large_candidates(entries: Seq<FileEntry>, min: u64) -> Seq<FindingView>
    decreases entries.len(),
{
    if entries.len() == 0 {
        seq![]
    } else {
        let rest = large_candidates(entries.drop_last(), min);
        let e = entries.last();
        if !e.is_dir && e.size >= min {
            rest.push(large_finding(e, min))
        } else {
            rest
        }
    }
}

/// Reports every file at or above a size threshold.
#[derive(Debug, Clone)]
pub struct LargeFileAnalyzer {
    min_size: u64,
}

impl LargeFileAnalyzer {
    /// The threshold.
    pub closed spec fn threshold(&self) -> u64 {
        self.min_size
    }

    /// An analyzer with the given threshold in bytes.
    pub fn new(min_size: u64) -> (r: Self)
        ensures
            r.threshold() == min_size,
    {
        LargeFileAnalyzer { min_size }
    }
}

impl Analyzer for LargeFileAnalyzer {
    /// Every scan: nothing is added up.
    open spec fn accepts(&self, entries: Seq<FileEntry>) -> bool {
        true
    }

    fn name(&self) -> (r: &'static str)
        ensures
            r@ == "large-file"@,
    {
        "large-file"
    }

    /// The files of at least the threshold, larger ones first; files of equal
    /// size keep their scan order.
    fn analyze(&self, entries: &[FileEntry]) -> (r: Vec<Finding>)
        ensures
            is_stable_sort(view_seq(r@), large_candidates(entries@, self.threshold()), larger_first()),
    {
        let mut reason = String::new();
        reason.append("file size is greater than or equal to ");
        push_number(&mut reason, self.min_size);
        reason.append(" bytes");
        assert(reason@ =~= large_reason(self.min_size));
        let mut found: Vec<Finding> = Vec::new();
        let mut i: usize = 0;
        while i < entries.len()
            invariant
                i <= entries@.len(),
                reason@ == large_reason(self.min_size),
                view_seq(found@) == large_candidates(entries@.take(i as int), self.min_size),
            decreases entries.len() - i,
        {
            assert(entries@.take(i + 1).drop_last() =~= entries@.take(i as int));
            let e = &entries[i];
            if e.is_file() && e.size >= self.min_size {
                let f = Finding {
                    path: e.path.clone(),
                    kind: FindingKind::LargeFile,
                    size: e.size,
                    risk: RiskLevel::Review,
                    reason: reason.clone(),
                };
                let ghost before = view_seq(found@);
                found.push(f);
                assert(view_seq(found@) =~= before.push(large_finding(*e, self.min_size)));
            }
            i = i + 1;
        }
        assert(entries@.take(entries@.len() as int) =~= entries@);
        let before = |x: &Finding, y: &Finding| -> (res: bool)
            ensures
                res == (x.size > y.size),
            { x.size > y.size };
        assert(strict_weak_order(larger_first()));
        stable_sort(&found, &before, Ghost(larger_first()))
    }
}

proof fn lemma_candidates_reach(entries: Seq<FileEntry>, min: u64)
    ensures
        forall|k: int|
            0 <= k < large_candidates(entries, min).len() ==> {
                let f = #[trigger] large_candidates(entries, min)[k];
                f.size >= min && f.kind == FindingKind::LargeFile && f.risk == RiskLevel::Review
            },
    decreases entries.len(),
{
    if entries.len() > 0 {
        lemma_candidates_reach(entries.drop_last(), min);
        let rest = large_candidates(entries.drop_last(), min);
        assert forall|k: int| 0 <= k < large_candidates(entries, min).len() implies {
            let f = #[trigger] large_candidates(entries, min)[k];
            f.size >= min && f.kind == FindingKind::LargeFile && f.risk == RiskLevel::Review
        } by {
            if k < rest.len() {
                assert(large_candidates(entries, min)[k] == rest[k]);
            }
        }
    }
}

/// Every large-file finding is at least the threshold and is left for
/// review.
pub proof fn lemma_large_findings_reach_threshold(r: Seq<FindingView>, entries: Seq<FileEntry>, min: u64)
    requires
        is_stable_sort(r, large_candidates(entries, min), larger_first()),
    ensures
        forall|k: int|
            0 <= k < r.len() ==> #[trigger] r[k].size >= min && r[k].kind == FindingKind::LargeFile && r[k].risk
                == RiskLevel::Review,
{
    lemma_candidates_reach(entries, min);
    assert forall|k: int| 0 <= k < r.len() implies #[trigger] r[k].size >= min && r[k].kind
        == FindingKind::LargeFile && r[k].risk == RiskLevel::Review by {
        lemma_stable_sort_from_input(r, large_candidates(entries, min), larger_first(), k);
    }
}

proof fn lemma_candidates_complete(entries: Seq<FileEntry>, min: u64, i: int)
    requires
        0 <= i < entries.len(),
        !entries[i].is_dir,
        entries[i].size >= min,
    ensures
        exists|k: int|
            0 <= k < large_candidates(entries, min).len() && #[trigger] large_candidates(entries, min)[k] == large_finding(
                entries[i],
                min,
            ),
    decreases entries.len(),
{
    let rest = large_candidates(entries.drop_last(), min);
    if i == entries.len() - 1 {
        assert(large_candidates(entries, min)[rest.len() as int] == large_finding(entries[i], min));
    } else {
        assert(entries.drop_last()[i] == entries[i]);
        lemma_candidates_complete(entries.drop_last(), min, i);
        let k = choose|k: int| 0 <= k < rest.len() && #[trigger] rest[k] == large_finding(entries[i], min);
        assert(large_candidates(entries, min)[k] == rest[k]);
    }
}

/// Every file of at least the threshold is reported, wherever it lies: the
/// findings hold one for its path, with its size, as a large file left for
/// review.
pub proof fn lemma_large_findings_complete(r: Seq<FindingView>, entries: Seq<FileEntry>, min: u64, i: int)
    requires
        is_stable_sort(r, large_candidates(entries, min), larger_first()),
        0 <= i < entries.len(),
        !entries[i].is_dir,
        entries[i].size >= min,
    ensures
        exists|k: int|
            0 <= k < r.len() && (#[trigger] r[k]).path == entries[i].path@ && r[k].size == entries[i].size
                && r[k].kind == FindingKind::LargeFile && r[k].risk == RiskLevel::Review,
{
    lemma_candidates_complete(entries, min, i);
    let j = choose|j: int|
        0 <= j < large_candidates(entries, min).len() && #[trigger] large_candidates(entries, min)[j] == large_finding(
            entries[i],
            min,
        );
    lemma_stable_sort_keeps_input(r, large_candidates(entries, min), larger_first(), j);
    let k = choose|k: int| 0 <= k < r.len() && #[trigger] r[k] == large_candidates(entries, min)[j];
    assert(r[k].path == entries[i].path@);
}

} // verus!
