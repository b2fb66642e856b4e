//! Interactive state of the three-panel view. Drawing only reads it; the key
//! handlers change it through the methods here.
use vstd::prelude::*;
use vstd::string::*;
use crate::analysis::{Finding, FindingKind, FindingView, RiskLevel, risk_rank};
use crate::fs::metadata::{saturating, ScanReport};
use crate::order::{is_stable_sort, lemma_stable_sort_unique, stable_sort, strict_weak_order, view_seq};
use crate::paths::{chars_less, chars_lt, lemma_chars_lt_order};
use crate::text::{decimal, push_number, str_chars};

verus! {

/// The panel that has the focus.
#[derive(Debug, Clone, Copy, PartialEq, Eq, Structural)]
pub enum FocusPanel {
    Overview,
    Findings,
    Details,
}

/// Which findings the list shows, by risk.
#[derive(Debug, Clone, Copy, PartialEq, Eq, Structural)]
pub enum RiskFilter {
    All,
    Safe,
    Review,
    Dangerous,
}

/// The order of the finding list.
#[derive(Debug, Clone, Copy, PartialEq, Eq, Structural)]
pub enum SortMode {
    SizeDesc,
    RiskDesc,
    KindAsc,
    PathAsc,
}

/// The label of a filter.
pub open spec fn filter_label(f: RiskFilter) -> Seq<char> {
    match f {
        RiskFilter::All => "ALL"@,
        RiskFilter::Safe => "SAFE"@,
        RiskFilter::Review => "REVIEW"@,
        RiskFilter::Dangerous => "DANGER"@,
    }
}

/// Whether a filter lets a risk level through.
pub open spec fn filter_matches(f: RiskFilter, r: RiskLevel) -> bool {
    match f {
        RiskFilter::All => true,
        RiskFilter::Safe => r == RiskLevel::Safe,
        RiskFilter::Review => r == RiskLevel::Review,
        RiskFilter::Dangerous => r == RiskLevel::Dangerous,
    }
}

/// The filter after `f` in the cycle all, safe, review, dangerous.
pub open spec fn filter_after(f: RiskFilter) -> RiskFilter {
    match f {
        RiskFilter::All => RiskFilter::Safe,
        RiskFilter::Safe => RiskFilter::Review,
        RiskFilter::Review => RiskFilter::Dangerous,
        RiskFilter::Dangerous => RiskFilter::All,
    }
}

/// The label of a sort mode.
pub open spec fn sort_label(m: SortMode) -> Seq<char> {
    match m {
        SortMode::SizeDesc => "SIZE DESC"@,
        SortMode::RiskDesc => "RISK DESC"@,
        SortMode::KindAsc => "KIND ASC"@,
        SortMode::PathAsc => "PATH ASC"@,
    }
}

/// The mode after `m` in the cycle size, risk, kind, path.
pub open spec fn sort_after(m: SortMode) -> SortMode {
    match m {
        SortMode::SizeDesc => SortMode::RiskDesc,
        SortMode::RiskDesc => SortMode::KindAsc,
        SortMode::KindAsc => SortMode::PathAsc,
        SortMode::PathAsc => SortMode::SizeDesc,
    }
}

/// The focus after `p` in the cycle overview, findings, details.
pub open spec fn panel_after(p: FocusPanel) -> FocusPanel {
    match p {
        FocusPanel::Overview => FocusPanel::Findings,
        FocusPanel::Findings => FocusPanel::Details,
        FocusPanel::Details => FocusPanel::Overview,
    }
}

/// The focus before `p` in the same cycle.
pub open spec fn panel_before(p: FocusPanel) -> FocusPanel {
    match p {
        FocusPanel::Overview => FocusPanel::Details,
        FocusPanel::Findings => FocusPanel::Overview,
        FocusPanel::Details => FocusPanel::Findings,
    }
}

/// The position of a kind in the order large file, residue, duplicate to
/// keep, duplicate to remove.
pub open spec fn kind_rank(k: FindingKind) -> int {
    match k {
        FindingKind::LargeFile => 0,
        FindingKind::DevResidue => 1,
        FindingKind::DuplicateCandidate { keep, .. } => if keep {
            2
        } else {
            3
        },
    }
}

/// The positions of the findings the filter lets through, in order.
pub open spec fn matching_positions(fv: Seq<FindingView>, f: RiskFilter) -> Seq<usize>
    decreases fv.len(),
{
    if fv.len() == 0 {
        seq![]
    } else {
        let rest = matching_positions(fv.drop_last(), f);
        if filter_matches(f, fv.last().risk) {
            rest.push((fv.len() - 1) as usize)
        } else {
            rest
        }
    }
}

/// The order of list positions under a sort mode: larger size, higher risk,
/// lower kind rank, or smaller path text first.
pub open spec fn position_before(fv: Seq<FindingView>, m: SortMode) -> spec_fn(usize, usize) -> bool {
    |i: usize, j: usize|
        {
            let x = fv[i as int];
            let y = fv[j as int];
            match m {
                SortMode::SizeDesc => x.size > y.size,
                SortMode::RiskDesc => risk_rank(x.risk) > risk_rank(y.risk),
                SortMode::KindAsc => kind_rank(x.kind) < kind_rank(y.kind),
                SortMode::PathAsc => chars_lt(x.path, y.path),
            }
        }
}

/// The visible list: the positions the filter lets through, stably sorted
/// by the mode.
pub open spec fn is_visible_order(vis: Seq<usize>, fv: Seq<FindingView>, f: RiskFilter, m: SortMode) -> bool {
    is_stable_sort(vis, matching_positions(fv, f), position_before(fv, m))
}

/// Counts of findings per risk level.
#[derive(Debug, Clone, Copy)]
pub struct RiskSummary {
    pub safe: usize,
    pub review: usize,
    pub dangerous: usize,
}

impl RiskSummary {
    /// The number of findings counted.
    pub fn total(self) -> (r: usize)
        requires
            self.safe + self.review + self.dangerous <= usize::MAX,
        ensures
            r == self.safe + self.review + self.dangerous,
    {
        self.safe + self.review + self.dangerous
    }
}

impl Default for RiskSummary {
    fn default() -> (r: Self)
        ensures
            r.safe == 0,
            r.review == 0,
            r.dangerous == 0,
    {
        RiskSummary { safe: 0, review: 0, dangerous: 0 }
    }
}

/// Bytes of findings per risk level.
#[derive(Debug, Clone, Copy)]
pub struct SizeSummary {
    pub safe_bytes: u64,
    pub review_bytes: u64,
    pub dangerous_bytes: u64,
}

impl SizeSummary {
    /// The bytes counted.
    pub fn total(self) -> (r: u64)
        requires
            self.safe_bytes + self.review_bytes + self.dangerous_bytes <= u64::MAX,
        ensures
            r == self.safe_bytes + self.review_bytes + self.dangerous_bytes,
    {
        self.safe_bytes + self.review_bytes + self.dangerous_bytes
    }
}

impl Default for SizeSummary {
    fn default() -> (r: Self)
        ensures
            r.safe_bytes == 0,
            r.review_bytes == 0,
            r.dangerous_bytes == 0,
    {
        SizeSummary { safe_bytes: 0, review_bytes: 0, dangerous_bytes: 0 }
    }
}

/// Number of findings at a risk level.
pub open spec fn count_risk(fv: Seq<FindingView>, r: RiskLevel) -> nat
    decreases fv.len(),
{
    if fv.len() == 0 {
        0
    } else {
        count_risk(fv.drop_last(), r) + if fv.last().risk == r {
            1nat
        } else {
            0nat
        }
    }
}

/// Total size of the findings at a risk level.
pub open spec fn bytes_at_risk(fv: Seq<FindingView>, r: RiskLevel) -> nat
    decreases fv.len(),
{
    if fv.len() == 0 {
        0
    } else {
        bytes_at_risk(fv.drop_last(), r) + if fv.last().risk == r {
            fv.last().size as nat
        } else {
            0nat
        }
    }
}

/// The size at a risk level, added up with saturation at every step.
pub open spec fn saturating_bytes_at_risk(fv: Seq<FindingView>, r: RiskLevel) -> u64
    decreases fv.len(),
{
    if fv.len() == 0 {
        0
    } else {
        let before = saturating_bytes_at_risk(fv.drop_last(), r);
        if fv.last().risk == r {
            saturating((before + fv.last().size) as nat)
        } else {
            before
        }
    }
}

/// The position of the largest finding, the last of equally large ones.
pub open spec fn largest_position(fv: Seq<FindingView>) -> int
    decreases fv.len(),
{
    if fv.len() <= 1 {
        0
    } else {
        let k = largest_position(fv.drop_last());
        if fv.last().size >= fv[k].size {
            fv.len() - 1
        } else {
            k
        }
    }
}

/// The interactive state of the terminal view.
#[derive(Debug, Clone)]
pub struct TuiState {
    pub report: ScanReport,
    pub findings: Vec<Finding>,
    pub selected: usize,
    pub focus: FocusPanel,
    pub filter: RiskFilter,
    pub sort: SortMode,
    pub visible_indices: VisibleList,
}

/// The positions of the findings on display, in display order. Only the
/// state's own methods build or change it.
#[derive(Debug, Clone)]
pub struct VisibleList {
    positions: Vec<usize>,
}

impl VisibleList {
    /// The positions, in display order.
    pub closed spec fn seq(&self) -> Seq<usize> {
        self.positions@
    }
}

impl RiskFilter {
    /// The label shown for this filter.
    pub fn label(self) -> (r: &'static str)
        ensures
            r@ == filter_label(self),
    {
        match self {
            RiskFilter::All => "ALL",
            RiskFilter::Safe => "SAFE",
            RiskFilter::Review => "REVIEW",
            RiskFilter::Dangerous => "DANGER",
        }
    }

    fn matches(self, risk: RiskLevel) -> (r: bool)
        ensures
            r == filter_matches(self, risk),
    {
        match self {
            RiskFilter::All => true,
            RiskFilter::Safe => risk == RiskLevel::Safe,
            RiskFilter::Review => risk == RiskLevel::Review,
            RiskFilter::Dangerous => risk == RiskLevel::Dangerous,
        }
    }

    fn next(self) -> (r: Self)
        ensures
            r == filter_after(self),
    {
        match self {
            RiskFilter::All => RiskFilter::Safe,
            RiskFilter::Safe => RiskFilter::Review,
            RiskFilter::Review => RiskFilter::Dangerous,
            RiskFilter::Dangerous => RiskFilter::All,
        }
    }
}

impl SortMode {
    /// The label shown for this mode.
    pub fn label(self) -> (r: &'static str)
        ensures
            r@ == sort_label(self),
    {
        match self {
            SortMode::SizeDesc => "SIZE DESC",
            SortMode::RiskDesc => "RISK DESC",
            SortMode::KindAsc => "KIND ASC",
            SortMode::PathAsc => "PATH ASC",
        }
    }

    fn next(self) -> (r: Self)
        ensures
            r == sort_after(self),
    {
        match self {
            SortMode::SizeDesc => SortMode::RiskDesc,
            SortMode::RiskDesc => SortMode::KindAsc,
            SortMode::KindAsc => SortMode::PathAsc,
            SortMode::PathAsc => SortMode::SizeDesc,
        }
    }
}

/// The rank of a kind in the kind order.
fn kind_order(kind: &FindingKind) -> (r: usize)
    ensures
        r as int == kind_rank(*kind),
{
    match kind {
        FindingKind::LargeFile => 0,
        FindingKind::DevResidue => 1,
        FindingKind::DuplicateCandidate { keep, .. } => if *keep {
            2
        } else {
            3
        },
    }
}

impl TuiState {
    /// The positions of the findings shown, in display order.
    pub open spec fn visible(&self) -> Seq<usize> {
        self.visible_indices.seq()
    }

    /// The list shown matches the findings, the filter and the sort mode,
    /// and the selection is inside it (or 0 when it is empty).
    pub open spec fn consistent(&self) -> bool {
        &&& is_visible_order(self.visible(), view_seq(self.findings@), self.filter, self.sort)
        &&& self.selected <= self.visible().len() - 1 || (self.visible().len() == 0 && self.selected == 0)
    }

    /// The state for a scan and its findings: overview focused, all risks
    /// shown, largest first, first item selected.
    pub fn new(report: ScanReport, findings: Vec<Finding>) -> (r: Self)
        ensures
            r.report == report,
            r.findings == findings,
            r.focus == FocusPanel::Overview,
            r.filter == RiskFilter::All,
            r.sort == SortMode::SizeDesc,
            r.selected == 0,
            r.consistent(),
    {
        let mut state = TuiState {
            report,
            findings,
            selected: 0,
            focus: FocusPanel::Overview,
            filter: RiskFilter::All,
            sort: SortMode::SizeDesc,
            visible_indices: VisibleList { positions: Vec::new() },
        };
        state.refresh_visible_indices();
        state
    }

    /// The number of findings shown.
    pub fn visible_len(&self) -> (r: usize)
        ensures
            r == self.visible().len(),
    {
        self.visible_indices.positions.len()
    }

    /// The position of the finding shown at place `i` of the list.
    pub fn visible_position(&self, i: usize) -> (r: usize)
        requires
            i < self.visible().len(),
        ensures
            r == self.visible()[i as int],
    {
        self.visible_indices.positions[i]
    }

    /// The findings shown, in display order (positions past the end of the
    /// findings are left out).
    pub fn visible_findings(&self) -> (r: Vec<&Finding>)
        ensures
            r@.len() <= self.visible().len(),
            self.consistent() ==> r@.len() == self.visible().len() && forall|k: int|
                0 <= k < r@.len() ==> *#[trigger] r@[k] == self.findings@[self.visible()[k] as int],
    {
        let mut out: Vec<&Finding> = Vec::new();
        let mut i: usize = 0;
        let ghost all_in = self.consistent();
        proof {
            if all_in {
                lemma_visible_in_range(self.visible(), view_seq(self.findings@), self.filter, self.sort);
            }
        }
        while i < self.visible_indices.positions.len()
            invariant
                i <= self.visible().len(),
                self.visible() == self.visible_indices.positions@,
                out@.len() <= i,
                all_in ==> forall|j: int| 0 <= j < self.visible().len() ==> #[trigger] self.visible()[j] < self.findings@.len(),
                all_in ==> out@.len() == i && forall|k: int|
                    0 <= k < out@.len() ==> *#[trigger] out@[k] == self.findings@[self.visible()[k] as int],
            decreases self.visible_indices.positions.len() - i,
        {
            let idx = self.visible_indices.positions[i];
            if idx < self.findings.len() {
                out.push(&self.findings[idx]);
            }
            i = i + 1;
        }
        out
    }

    /// The selected finding, if the selection points at one.
    pub fn selected_finding(&self) -> (r: Option<&Finding>)
        ensures
            match r {
                Some(f) => self.selected < self.visible().len() && self.visible()[self.selected as int] < self.findings@.len()
                    && *f == self.findings@[self.visible()[self.selected as int] as int],
                None => !(self.selected < self.visible().len() && self.visible()[self.selected as int] < self.findings@.len()),
            },
    {
        if self.selected < self.visible_indices.positions.len() {
            let idx = self.visible_indices.positions[self.selected];
            if idx < self.findings.len() {
                return Some(&self.findings[idx]);
            }
        }
        None
    }

    /// `none` when nothing is shown, otherwise the 1-based position of the
    /// selection and the number shown, as `i/n`.
    pub fn selected_position_label(&self) -> (r: String)
        requires
            self.visible().len() > 0 ==> self.selected < usize::MAX,
        ensures
            r@ == if self.visible().len() == 0 {
                "none"@
            } else {
                decimal((self.selected + 1) as nat) + "/"@ + decimal(self.visible().len())
            },
    {
        if self.visible_indices.positions.len() == 0 {
            "none".to_owned()
        } else {
            let mut out = String::new();
            push_number(&mut out, (self.selected + 1) as u64);
            out.append("/");
            push_number(&mut out, self.visible_indices.positions.len() as u64);
            out
        }
    }

    /// Moves the selection down, stopping at the last finding shown.
    pub fn next(&mut self)
        requires
            old(self).visible().len() > 0 ==> old(self).selected < usize::MAX,
        ensures
            final(self).selected == if old(self).visible().len() == 0 {
                old(self).selected as int
            } else if old(self).selected + 1 <= old(self).visible().len() - 1 {
                old(self).selected + 1
            } else {
                old(self).visible().len() - 1
            },
            final(self).visible() == old(self).visible(),
            final(self).focus == old(self).focus,
            final(self).filter == old(self).filter,
            final(self).sort == old(self).sort,
            final(self).findings == old(self).findings,
            final(self).report == old(self).report,
    {
        if self.visible_indices.positions.len() > 0 {
            let last = self.visible_indices.positions.len() - 1;
            let up = self.selected + 1;
            self.selected = if up < last {
                up
            } else {
                last
            };
        }
    }

    /// Moves the selection up, stopping at the first finding.
    pub fn previous(&mut self)
        ensures
            final(self).selected == if old(self).selected == 0 {
                0
            } else {
                old(self).selected - 1
            },
            final(self).visible() == old(self).visible(),
            final(self).focus == old(self).focus,
            final(self).filter == old(self).filter,
            final(self).sort == old(self).sort,
            final(self).findings == old(self).findings,
            final(self).report == old(self).report,
    {
        self.selected = self.selected.saturating_sub(1);
    }

    /// Selects the first finding.
    pub fn first(&mut self)
        ensures
            final(self).selected == 0,
            final(self).visible() == old(self).visible(),
            final(self).focus == old(self).focus,
            final(self).filter == old(self).filter,
            final(self).sort == old(self).sort,
            final(self).findings == old(self).findings,
            final(self).report == old(self).report,
    {
        self.selected = 0;
    }

    /// Selects the last finding shown, if any.
    pub fn last(&mut self)
        ensures
            final(self).selected == if old(self).visible().len() == 0 {
                old(self).selected as int
            } else {
                old(self).visible().len() - 1
            },
            final(self).visible() == old(self).visible(),
            final(self).focus == old(self).focus,
            final(self).filter == old(self).filter,
            final(self).sort == old(self).sort,
            final(self).findings == old(self).findings,
            final(self).report == old(self).report,
    {
        if self.visible_indices.positions.len() > 0 {
            self.selected = self.visible_indices.positions.len() - 1;
        }
    }

    /// Moves the focus to the next panel.
    pub fn next_panel(&mut self)
        ensures
            final(self).focus == panel_after(old(self).focus),
            final(self).selected == old(self).selected,
            final(self).visible() == old(self).visible(),
            final(self).filter == old(self).filter,
            final(self).sort == old(self).sort,
            final(self).findings == old(self).findings,
            final(self).report == old(self).report,
    {
        self.focus = match self.focus {
            FocusPanel::Overview => FocusPanel::Findings,
            FocusPanel::Findings => FocusPanel::Details,
            FocusPanel::Details => FocusPanel::Overview,
        };
    }

    /// Moves the focus to the previous panel.
    pub fn previous_panel(&mut self)
        ensures
            final(self).focus == panel_before(old(self).focus),
            final(self).selected == old(self).selected,
            final(self).visible() == old(self).visible(),
            final(self).filter == old(self).filter,
            final(self).sort == old(self).sort,
            final(self).findings == old(self).findings,
            final(self).report == old(self).report,
    {
        self.focus = match self.focus {
            FocusPanel::Overview => FocusPanel::Details,
            FocusPanel::Findings => FocusPanel::Overview,
            FocusPanel::Details => FocusPanel::Findings,
        };
    }

    /// Shows the next risk filter and selects the first finding.
    pub fn next_filter(&mut self)
        ensures
            final(self).filter == filter_after(old(self).filter),
            final(self).selected == 0,
            final(self).consistent(),
            final(self).sort == old(self).sort,
            final(self).focus == old(self).focus,
            final(self).findings == old(self).findings,
            final(self).report == old(self).report,
    {
        self.filter = self.filter.next();
        self.selected = 0;
        self.refresh_visible_indices();
    }

    /// Uses the next sort mode and selects the first finding.
    pub fn next_sort(&mut self)
        ensures
            final(self).sort == sort_after(old(self).sort),
            final(self).selected == 0,
            final(self).consistent(),
            final(self).filter == old(self).filter,
            final(self).focus == old(self).focus,
            final(self).findings == old(self).findings,
            final(self).report == old(self).report,
    {
        self.sort = self.sort.next();
        self.selected = 0;
        self.refresh_visible_indices();
    }

    /// Shows every finding, largest first, and selects the first.
    pub fn reset_view(&mut self)
        ensures
            final(self).filter == RiskFilter::All,
            final(self).sort == SortMode::SizeDesc,
            final(self).selected == 0,
            final(self).consistent(),
            final(self).focus == old(self).focus,
            final(self).findings == old(self).findings,
            final(self).report == old(self).report,
    {
        self.filter = RiskFilter::All;
        self.sort = SortMode::SizeDesc;
        self.selected = 0;
        self.refresh_visible_indices();
    }

    /// The number of findings per risk level.
    pub fn risk_summary(&self) -> (r: RiskSummary)
        ensures
            r.safe == count_risk(view_seq(self.findings@), RiskLevel::Safe),
            r.review == count_risk(view_seq(self.findings@), RiskLevel::Review),
            r.dangerous == count_risk(view_seq(self.findings@), RiskLevel::Dangerous),
    {
        let mut summary = RiskSummary::default();
        let mut i: usize = 0;
        while i < self.findings.len()
            invariant
                i <= self.findings@.len(),
                summary.safe == count_risk(view_seq(self.findings@.take(i as int)), RiskLevel::Safe),
                summary.review == count_risk(view_seq(self.findings@.take(i as int)), RiskLevel::Review),
                summary.dangerous == count_risk(view_seq(self.findings@.take(i as int)), RiskLevel::Dangerous),
                summary.safe + summary.review + summary.dangerous == i,
            decreases self.findings.len() - i,
        {
            assert(view_seq(self.findings@.take(i + 1)).drop_last() =~= view_seq(self.findings@.take(i as int)));
            match self.findings[i].risk {
                RiskLevel::Safe => summary.safe = summary.safe + 1,
                RiskLevel::Review => summary.review = summary.review + 1,
                RiskLevel::Dangerous => summary.dangerous = summary.dangerous + 1,
            }
            i = i + 1;
        }
        assert(self.findings@.take(self.findings@.len() as int) =~= self.findings@);
        summary
    }

    /// The bytes of the findings per risk level, each capped at `u64::MAX`.
    pub fn size_summary(&self) -> (r: SizeSummary)
        ensures
            r.safe_bytes == saturating_bytes_at_risk(view_seq(self.findings@), RiskLevel::Safe),
            r.review_bytes == saturating_bytes_at_risk(view_seq(self.findings@), RiskLevel::Review),
            r.dangerous_bytes == saturating_bytes_at_risk(view_seq(self.findings@), RiskLevel::Dangerous),
    {
        let mut summary = SizeSummary::default();
        let mut i: usize = 0;
        while i < self.findings.len()
            invariant
                i <= self.findings@.len(),
                summary.safe_bytes == saturating_bytes_at_risk(view_seq(self.findings@.take(i as int)), RiskLevel::Safe),
                summary.review_bytes == saturating_bytes_at_risk(view_seq(self.findings@.take(i as int)), RiskLevel::Review),
                summary.dangerous_bytes == saturating_bytes_at_risk(view_seq(self.findings@.take(i as int)), RiskLevel::Dangerous),
            decreases self.findings.len() - i,
        {
            assert(view_seq(self.findings@.take(i + 1)).drop_last() =~= view_seq(self.findings@.take(i as int)));
            let size = self.findings[i].size;
            match self.findings[i].risk {
                RiskLevel::Safe => summary.safe_bytes = summary.safe_bytes.saturating_add(size),
                RiskLevel::Review => summary.review_bytes = summary.review_bytes.saturating_add(size),
                RiskLevel::Dangerous => summary.dangerous_bytes = summary.dangerous_bytes.saturating_add(size),
            }
            i = i + 1;
        }
        assert(self.findings@.take(self.findings@.len() as int) =~= self.findings@);
        summary
    }

    /// The bytes that cleaning the safe findings would free.
    pub fn reclaimable_estimate(&self) -> (r: u64)
        requires
            bytes_at_risk(view_seq(self.findings@), RiskLevel::Safe) <= u64::MAX,
        ensures
            r == bytes_at_risk(view_seq(self.findings@), RiskLevel::Safe),
    {
        let mut sum: u64 = 0;
        let mut i: usize = 0;
        while i < self.findings.len()
            invariant
                i <= self.findings@.len(),
                bytes_at_risk(view_seq(self.findings@), RiskLevel::Safe) <= u64::MAX,
                sum == bytes_at_risk(view_seq(self.findings@.take(i as int)), RiskLevel::Safe),
            decreases self.findings.len() - i,
        {
            proof {
                assert(view_seq(self.findings@.take(i + 1)).drop_last() =~= view_seq(self.findings@.take(i as int)));
                lemma_bytes_at_risk_prefix(view_seq(self.findings@), RiskLevel::Safe, i + 1);
                assert(view_seq(self.findings@).take(i + 1) =~= view_seq(self.findings@.take(i + 1)));
            }
            if self.findings[i].risk == RiskLevel::Safe {
                sum = sum + self.findings[i].size;
            }
            i = i + 1;
        }
        assert(self.findings@.take(self.findings@.len() as int) =~= self.findings@);
        sum
    }

    /// The largest finding (the last one among equally large findings).
    pub fn largest_finding(&self) -> (r: Option<&Finding>)
        ensures
            match r {
                Some(f) => self.findings@.len() > 0 && *f == self.findings@[largest_position(view_seq(self.findings@))],
                None => self.findings@.len() == 0,
            },
    {
        if self.findings.len() == 0 {
            return None;
        }
        let mut best: usize = 0;
        let mut i: usize = 1;
        while i < self.findings.len()
            invariant
                1 <= i <= self.findings@.len(),
                best < i,
                best == largest_position(view_seq(self.findings@.take(i as int))),
            decreases self.findings.len() - i,
        {
            proof {
                let t = view_seq(self.findings@.take(i + 1));
                assert(t.drop_last() =~= view_seq(self.findings@.take(i as int)));
                assert(t[best as int] == self.findings@[best as int]@);
            }
            if self.findings[i].size >= self.findings[best].size {
                best = i;
            }
            i = i + 1;
        }
        assert(self.findings@.take(self.findings@.len() as int) =~= self.findings@);
        Some(&self.findings[best])
    }

    /// Recomputes the list shown and pulls the selection back inside it.
    fn refresh_visible_indices(&mut self)
        ensures
            is_visible_order(final(self).visible(), view_seq(final(self).findings@), final(self).filter, final(self).sort),
            final(self).selected == if old(self).selected >= final(self).visible().len() {
                if final(self).visible().len() == 0 {
                    0
                } else {
                    final(self).visible().len() - 1
                }
            } else {
                old(self).selected as int
            },
            final(self).findings == old(self).findings,
            final(self).report == old(self).report,
            final(self).filter == old(self).filter,
            final(self).sort == old(self).sort,
            final(self).focus == old(self).focus,
    {
        let ghost fv = view_seq(self.findings@);
        let mut indices: Vec<usize> = Vec::new();
        let mut i: usize = 0;
        while i < self.findings.len()
            invariant
                i <= self.findings@.len(),
                fv == view_seq(self.findings@),
                indices@ == matching_positions(fv.take(i as int), self.filter),
                forall|k: int| 0 <= k < indices@.len() ==> #[trigger] indices@[k] < i,
            decreases self.findings.len() - i,
        {
            assert(fv.take(i + 1).drop_last() =~= fv.take(i as int));
            if self.filter.matches(self.findings[i].risk) {
                indices.push(i);
            }
            i = i + 1;
        }
        assert(fv.take(fv.len() as int) =~= fv);
        let mode = self.sort;
        let findings = &self.findings;
        let before = |a: &usize, b: &usize| -> (res: bool)
            requires
                *a < findings@.len(),
                *b < findings@.len(),
            ensures
                res == position_before(view_seq(findings@), mode)(*a, *b),
            {
                let x = &findings[*a];
                let y = &findings[*b];
                match mode {
                    SortMode::SizeDesc => x.size > y.size,
                    SortMode::RiskDesc => x.risk.rank() > y.risk.rank(),
                    SortMode::KindAsc => kind_order(&x.kind) < kind_order(&y.kind),
                    SortMode::PathAsc => {
                        let p = str_chars(x.path.as_str());
                        let q = str_chars(y.path.as_str());
                        chars_less(&p, &q)
                    },
                }
            };
        proof {
            lemma_position_order(fv, mode);
            let b = position_before(fv, mode);
            assert(strict_weak_order(b));
            assert forall|i: int, j: int|
                0 <= i < indices@.len() && 0 <= j < indices@.len() implies #[trigger] call_requires(before, (&indices@[i], &indices@[j])) by {
                assert(indices@[i] < findings@.len());
                assert(indices@[j] < findings@.len());
            }
        }
        let sorted = stable_sort(&indices, &before, Ghost(position_before(fv, mode)));
        proof {
            assert(view_seq(sorted@) =~= sorted@);
            assert(view_seq(indices@) =~= indices@);
        }
        self.visible_indices = VisibleList { positions: sorted };
        if self.selected >= self.visible_indices.positions.len() {
            self.selected = self.visible_indices.positions.len().saturating_sub(1);
        }
    }
}

proof fn lemma_bytes_at_risk_prefix(fv: Seq<FindingView>, r: RiskLevel, i: int)
    requires
        0 <= i <= fv.len(),
    ensures
        bytes_at_risk(fv.take(i), r) <= bytes_at_risk(fv, r),
    decreases fv.len() - i,
{
    if i < fv.len() {
        lemma_bytes_at_risk_prefix(fv, r, i + 1);
        assert(fv.take(i + 1).drop_last() =~= fv.take(i));
    } else {
        assert(fv.take(i) =~= fv);
    }
}

proof fn lemma_matching_in_range(fv: Seq<FindingView>, f: RiskFilter)
    ensures
        forall|k: int| 0 <= k < matching_positions(fv, f).len() ==> #[trigger] matching_positions(fv, f)[k] < fv.len(),
    decreases fv.len(),
{
    if fv.len() > 0 {
        lemma_matching_in_range(fv.drop_last(), f);
        let rest = matching_positions(fv.drop_last(), f);
        assert forall|k: int| 0 <= k < matching_positions(fv, f).len() implies #[trigger] matching_positions(fv, f)[k] < fv.len() by {
            if k < rest.len() {
                assert(matching_positions(fv, f)[k] == rest[k]);
            }
        }
    }
}

/// Every position in the visible list is a position of a finding.
pub proof fn lemma_visible_in_range(vis: Seq<usize>, fv: Seq<FindingView>, f: RiskFilter, m: SortMode)
    requires
        is_visible_order(vis, fv, f, m),
    ensures
        forall|j: int| 0 <= j < vis.len() ==> #[trigger] vis[j] < fv.len(),
{
    lemma_matching_in_range(fv, f);
    let inp = matching_positions(fv, f);
    let p = choose|p: Seq<usize>| #[trigger] crate::order::is_arrangement(p, inp.len()) && (forall|k: int, l: int|
            0 <= k < l < p.len() ==> crate::order::stable_before(inp, position_before(fv, m), #[trigger] p[k] as int, #[trigger] p[l] as int))
            && vis.len() == inp.len() && (forall|k: int|
            0 <= k < vis.len() ==> #[trigger] vis[k] == inp[p[k] as int]);
    assert forall|j: int| 0 <= j < vis.len() implies #[trigger] vis[j] < fv.len() by {
        assert(vis[j] == inp[p[j] as int]);
        assert(p[j] < inp.len());
    }
}

/// Every finding is counted at exactly one risk level: the three counts of
/// the risk summary add up to the number of findings.
pub proof fn lemma_risk_counts_cover(fv: Seq<FindingView>)
    ensures
        count_risk(fv, RiskLevel::Safe) + count_risk(fv, RiskLevel::Review) + count_risk(fv, RiskLevel::Dangerous)
            == fv.len(),
    decreases fv.len(),
{
    if fv.len() > 0 {
        lemma_risk_counts_cover(fv.drop_last());
    }
}

/// Moving the focus back undoes moving it forward, and the other way round.
pub proof fn lemma_panel_round_trip(p: FocusPanel)
    ensures
        panel_before(panel_after(p)) == p,
        panel_after(panel_before(p)) == p,
{
}

/// The focus comes back after three moves, the filter and the sort mode
/// after four.
pub proof fn lemma_cycles(p: FocusPanel, f: RiskFilter, m: SortMode)
    ensures
        panel_after(panel_after(panel_after(p))) == p,
        filter_after(filter_after(filter_after(filter_after(f)))) == f,
        sort_after(sort_after(sort_after(sort_after(m)))) == m,
{
}

/// The order of list positions under a sort mode is a strict weak order.
proof fn lemma_position_order(fv: Seq<FindingView>, m: SortMode)
    ensures
        strict_weak_order(position_before(fv, m)),
{
    let b = position_before(fv, m);
    assert forall|x: usize, y: usize, z: usize| #[trigger] b(x, y) && #[trigger] b(y, z) implies b(x, z) by {
        lemma_chars_lt_order(fv[x as int].path, fv[y as int].path, fv[z as int].path);
    }
    assert forall|x: usize, y: usize, z: usize| !#[trigger] b(x, y) && !#[trigger] b(y, z) implies !b(x, z) by {
        let (p, q, r) = (fv[x as int].path, fv[y as int].path, fv[z as int].path);
        lemma_chars_lt_order(p, q, r);
        lemma_chars_lt_order(q, p, r);
        lemma_chars_lt_order(p, r, q);
        lemma_chars_lt_order(r, q, p);
        lemma_chars_lt_order(q, r, p);
        lemma_chars_lt_order(r, p, q);
    }
    assert forall|x: usize| !#[trigger] b(x, x) by {
        lemma_chars_lt_order(fv[x as int].path, fv[x as int].path, fv[x as int].path);
    }
}

/// The list a filter and a sort mode give over the findings: the one stable
/// sort of the matching positions.
pub open spec fn visible_order(fv: Seq<FindingView>, f: RiskFilter, m: SortMode) -> Seq<usize> {
    choose|vis: Seq<usize>| is_visible_order(vis, fv, f, m)
}

/// A list in the visible order is the one [`visible_order`] names.
proof fn lemma_visible_order_unique(vis: Seq<usize>, fv: Seq<FindingView>, f: RiskFilter, m: SortMode)
    requires
        is_visible_order(vis, fv, f, m),
    ensures
        vis == visible_order(fv, f, m),
{
    let c = visible_order(fv, f, m);
    assert(is_visible_order(c, fv, f, m));
    lemma_position_order(fv, m);
    lemma_stable_sort_unique(vis, c, matching_positions(fv, f), position_before(fv, m));
}

/// The list shown is determined by the findings, the filter and the sort
/// mode: two consistent states that agree on those show the same list.
pub proof fn lemma_visible_list_determined(a: TuiState, b: TuiState)
    requires
        a.consistent(),
        b.consistent(),
        view_seq(a.findings@) == view_seq(b.findings@),
        a.filter == b.filter,
        a.sort == b.sort,
    ensures
        a.visible() == b.visible(),
        a.visible() == visible_order(view_seq(a.findings@), a.filter, a.sort),
{
    lemma_visible_order_unique(a.visible(), view_seq(a.findings@), a.filter, a.sort);
    lemma_visible_order_unique(b.visible(), view_seq(b.findings@), b.filter, b.sort);
}

/// Four filter changes bring back the filter and the list shown: a
/// consistent state reached from another by four calls of `next_filter`
/// (same findings and sort mode, filter advanced four times) shows the same
/// list.
pub proof fn lemma_four_filters_restore(s0: TuiState, s4: TuiState)
    requires
        s0.consistent(),
        s4.consistent(),
        s4.findings == s0.findings,
        s4.sort == s0.sort,
        s4.filter == filter_after(filter_after(filter_after(filter_after(s0.filter)))),
    ensures
        s4.filter == s0.filter,
        s4.visible() == s0.visible(),
{
    lemma_cycles(FocusPanel::Overview, s0.filter, s0.sort);
    lemma_visible_list_determined(s0, s4);
}

/// `reset_view` shows the list of a fresh state over the same findings, and
/// resetting twice shows the same list as resetting once: every consistent
/// state with all risks shown, largest first, shows one and the same list.
pub proof fn lemma_reset_view_matches_fresh(a: TuiState, b: TuiState)
    requires
        a.consistent(),
        b.consistent(),
        view_seq(a.findings@) == view_seq(b.findings@),
        a.filter == RiskFilter::All,
        b.filter == RiskFilter::All,
        a.sort == SortMode::SizeDesc,
        b.sort == SortMode::SizeDesc,
    ensures
        a.visible() == b.visible(),
{
    lemma_visible_list_determined(a, b);
}

} // verus!
