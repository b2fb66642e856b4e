//! Which findings may enter a cleanup plan.
use vstd::prelude::*;
use crate::analysis::{Finding, FindingKind, FindingView, RiskLevel};
use crate::order::{view_seq, Duplicate};

verus! {

/// A finding may be cleaned: safe development residue, or a duplicate that
/// is not the copy to keep and is not dangerous. Large files never are.
pub open spec fn is_cleanable(f: FindingView) -> bool {
    match f.kind {
        FindingKind::DevResidue => f.risk == RiskLevel::Safe,
        FindingKind::DuplicateCandidate { keep, .. } => !keep && f.risk != RiskLevel::Dangerous,
        FindingKind::LargeFile => false,
    }
}

/// The cleanable findings of `s`, in order.
pub open spec fn cleanable(s: Seq<FindingView>) -> Seq<FindingView>
    decreases s.len(),
{
    if s.len() == 0 {
        seq![]
    } else if is_cleanable(s.last()) {
        cleanable(s.drop_last()).push(s.last())
    } else {
        cleanable(s.drop_last())
    }
}

/// Every element of `cleanable(s)` is cleanable.
pub proof fn lemma_cleanable_only(s: Seq<FindingView>)
    ensures
        forall|k: int| 0 <= k < cleanable(s).len() ==> is_cleanable(#[trigger] cleanable(s)[k]),
    decreases s.len(),
{
    if s.len() > 0 {
        lemma_cleanable_only(s.drop_last());
        let c = cleanable(s.drop_last());
        if is_cleanable(s.last()) {
            assert forall|k: int| 0 <= k < cleanable(s).len() implies is_cleanable(#[trigger] cleanable(s)[k]) by {
                if k < c.len() {
                    assert(cleanable(s)[k] == c[k]);
                }
            }
        }
    }
}

/// The findings that may enter a cleanup plan, in their order: no large file,
/// no duplicate marked to keep and nothing dangerous ever passes.
pub fn cleanable_findings(findings: &[Finding]) -> (r: Vec<Finding>)
    ensures
        view_seq(r@) == cleanable(view_seq(findings@)),
        forall|k: int|
            0 <= k < r@.len() ==> {
                let f = #[trigger] r@[k];
                &&& f.kind != FindingKind::LargeFile
                &&& f.risk != RiskLevel::Dangerous
                &&& !(f.kind matches FindingKind::DuplicateCandidate { keep: true, .. })
            },
{
    let mut out: Vec<Finding> = Vec::new();
    let mut i: usize = 0;
    while i < findings.len()
        invariant
            i <= findings@.len(),
            view_seq(out@) == cleanable(view_seq(findings@.take(i as int))),
        decreases findings.len() - i,
    {
        assert(view_seq(findings@.take(i + 1)).drop_last() =~= view_seq(findings@.take(i as int)));
        let f = &findings[i];
        let keep = match &f.kind {
            FindingKind::DevResidue => f.risk == RiskLevel::Safe,
            FindingKind::DuplicateCandidate { keep, .. } => !*keep && f.risk != RiskLevel::Dangerous,
            FindingKind::LargeFile => false,
        };
        if keep {
            let ghost before = view_seq(out@);
            out.push(f.duplicate());
            assert(view_seq(out@) =~= before.push(f@));
        }
        i = i + 1;
    }
    assert(findings@.take(findings@.len() as int) =~= findings@);
    proof {
        lemma_cleanable_only(view_seq(findings@));
        assert forall|k: int| 0 <= k < out@.len() implies {
            let f = #[trigger] out@[k];
            &&& f.kind != FindingKind::LargeFile
            &&& f.risk != RiskLevel::Dangerous
            &&& !(f.kind matches FindingKind::DuplicateCandidate { keep: true, .. })
        } by {
            assert(view_seq(out@)[k] == out@[k]@);
            assert(is_cleanable(out@[k]@));
        }
    }
    out
}

} // verus!
