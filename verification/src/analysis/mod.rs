//! What the analyzers report, and the interface they share.
pub mod duplicate;
pub mod file_type;
pub mod insight;
pub mod large;
pub mod residue;
pub mod rule;

pub use large::LargeFileAnalyzer;
pub use residue::ResidueAnalyzer;
pub use rule::cleanable_findings;
pub use duplicate::{DuplicateAnalyzer, DuplicateGroup};
pub use insight::{DiskInsight, InsightAnalyzer, InsightSeverity};
pub use file_type::{FileTypeAnalyzer, FileTypeStat};

use vstd::prelude::*;
use crate::fs::metadata::FileEntry;
use crate::order::{is_stable_sort, stable_sort, strict_weak_order, view_seq, Duplicate};

verus! {

/// How safe it is to clean what a finding points at.
#[derive(Debug, Clone, Copy, PartialEq, Eq, PartialOrd, Ord, Structural)]
pub enum RiskLevel {
    /// Caches and build output, safe to remove.
    Safe,
    /// Needs a person's judgement.
    Review,
    /// Must not be cleaned.
    Dangerous,
}

/// The label of a risk level.
pub open spec fn risk_label(r: RiskLevel) -> Seq<char> {
    match r {
        RiskLevel::Safe => "SAFE"@,
        RiskLevel::Review => "REVIEW"@,
        RiskLevel::Dangerous => "DANGER"@,
    }
}

/// The position of a risk level in the order safe, review, dangerous.
pub open spec fn risk_rank(r: RiskLevel) -> int {
    match r {
        RiskLevel::Safe => 0,
        RiskLevel::Review => 1,
        RiskLevel::Dangerous => 2,
    }
}

impl RiskLevel {
    /// The label shown for this level.
    pub fn label(self) -> (r: &'static str)
        ensures
            r@ == risk_label(self),
    {
        match self {
            RiskLevel::Safe => "SAFE",
            RiskLevel::Review => "REVIEW",
            RiskLevel::Dangerous => "DANGER",
        }
    }

    /// The position of this level in the order safe, review, dangerous.
    pub fn rank(self) -> (r: u8)
        ensures
            r as int == risk_rank(self),
    {
        match self {
            RiskLevel::Safe => 0,
            RiskLevel::Review => 1,
            RiskLevel::Dangerous => 2,
        }
    }
}

/// The kind of a finding, which decides how cleanup treats it.
#[derive(Debug, Clone, PartialEq, Eq, Structural)]
pub enum FindingKind {
    LargeFile,
    DevResidue,
    DuplicateCandidate { group_id: usize, keep: bool },
}

/// What an analyzer reports about one path.
#[derive(Debug, Clone)]
pub struct Finding {
    pub path: String,
    pub kind: FindingKind,
    pub size: u64,
    pub risk: RiskLevel,
    pub reason: String,
}

/// A finding with its strings read as character sequences.
pub struct FindingView {
    pub path: Seq<char>,
    pub kind: FindingKind,
    pub size: u64,
    pub risk: RiskLevel,
    pub reason: Seq<char>,
}

impl View for Finding {
    type V = FindingView;

    open spec fn view(&self) -> FindingView {
        FindingView {
            path: self.path@,
            kind: self.kind,
            size: self.size,
            risk: self.risk,
            reason: self.reason@,
        }
    }
}

/// An exact copy of a finding kind.
pub fn copy_kind(k: &FindingKind) -> (r: FindingKind)
    ensures
        r == *k,
{
    match k {
        FindingKind::LargeFile => FindingKind::LargeFile,
        FindingKind::DevResidue => FindingKind::DevResidue,
        FindingKind::DuplicateCandidate { group_id, keep } => FindingKind::DuplicateCandidate {
            group_id: *group_id,
            keep: *keep,
        },
    }
}

impl Duplicate for Finding {
    fn duplicate(&self) -> (r: Self) {
        Finding {
            path: self.path.clone(),
            kind: copy_kind(&self.kind),
            size: self.size,
            risk: self.risk,
            reason: self.reason.clone(),
        }
    }
}

/// Findings before `y` by size: larger first.
pub open spec fn larger_first() -> spec_fn(FindingView, FindingView) -> bool {
    |x: FindingView, y: FindingView| x.size > y.size
}

/// Findings ordered larger first; findings of equal size keep their order.
pub fn sort_by_size(findings: &Vec<Finding>) -> (r: Vec<Finding>)
    ensures
        is_stable_sort(view_seq(r@), view_seq(findings@), larger_first()),
{
    let before = |x: &Finding, y: &Finding| -> (res: bool)
        ensures
            res == (x.size > y.size),
        { x.size > y.size };
    assert(strict_weak_order(larger_first()));
    stable_sort(findings, &before, Ghost(larger_first()))
}

/// The common interface of the analyzers that read scan entries only.
pub trait Analyzer {
    /// The analyzer's name.
    fn name(&self) -> &'static str;

    /// The entries this analyzer can report on without overflowing a size.
    spec fn accepts(&self, entries: Seq<FileEntry>) -> bool;

    /// The findings over a scan's entries.
    fn analyze(&self, entries: &[FileEntry]) -> Vec<Finding>
        requires
            self.accepts(entries@),
    ;
}

} // verus!
