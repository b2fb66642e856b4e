//! Advice drawn from a scan and its findings: how healthy the scan was, how
//! the risks are spread, how much space large files, residue and duplicates
//! take, and which command to run next.
use vstd::prelude::*;
use vstd::string::*;
use crate::analysis::{Finding, FindingKind, FindingView, RiskLevel};
use crate::fs::metadata::ScanReport;
use crate::order::view_seq;
use crate::tui::state::count_risk;
use crate::utils::format::{bytes, human_size};
use crate::text::{decimal, push_number, push_wide_number};

verus! {

/// How urgent an insight is.
#[derive(Debug, Clone, Copy, PartialEq, Eq, Structural)]
pub enum InsightSeverity {
    Info,
    Notice,
    Warning,
}

/// The label of a severity.
pub open spec fn severity_label(s: InsightSeverity) -> Seq<char> {
    match s {
        InsightSeverity::Info => "INFO"@,
        InsightSeverity::Notice => "NOTICE"@,
        InsightSeverity::Warning => "WARNING"@,
    }
}

impl InsightSeverity {
    /// The label shown for this severity.
    pub fn label(self) -> (r: &'static str)
        ensures
            r@ == severity_label(self),
    {
        match self {
            InsightSeverity::Info => "INFO",
            InsightSeverity::Notice => "NOTICE",
            InsightSeverity::Warning => "WARNING",
        }
    }
}

/// One piece of advice.
#[derive(Debug, Clone, PartialEq, Eq)]
pub struct DiskInsight {
    pub severity: InsightSeverity,
    pub title: String,
    pub message: String,
    pub suggested_command: Option<String>,
}

/// An insight read as plain values.
pub struct InsightView {
    pub severity: InsightSeverity,
    pub title: Seq<char>,
    pub message: Seq<char>,
    pub suggested_command: Option<Seq<char>>,
}

impl View for DiskInsight {
    type V = InsightView;

    open spec fn view(&self) -> InsightView {
        InsightView {
            severity: self.severity,
            title: self.title@,
            message: self.message@,
            suggested_command: match self.suggested_command {
                Some(c) => Some(c@),
                None => None,
            },
        }
    }
}

impl DiskInsight {
    /// An insight from its parts.
    pub fn new(severity: InsightSeverity, title: String, message: String, suggested_command: Option<String>) -> (r: Self)
        ensures
            r.severity == severity,
            r.title == title,
            r.message == message,
            r.suggested_command == suggested_command,
    {
        DiskInsight { severity, title, message, suggested_command }
    }
}

/// Total size of the findings that `pick` selects.
pub open spec fn picked_bytes(fv: Seq<FindingView>, pick: spec_fn(FindingKind) -> bool) -> nat
    decreases fv.len(),
{
    if fv.len() == 0 {
        0
    } else {
        picked_bytes(fv.drop_last(), pick) + if pick(fv.last().kind) {
            fv.last().size as nat
        } else {
            0nat
        }
    }
}

/// Large-file findings.
pub open spec fn is_large() -> spec_fn(FindingKind) -> bool {
    |k: FindingKind| k == FindingKind::LargeFile
}

/// Residue findings.
pub open spec fn is_residue() -> spec_fn(FindingKind) -> bool {
    |k: FindingKind| k == FindingKind::DevResidue
}

/// Duplicates proposed for removal.
pub open spec fn is_removable_duplicate() -> spec_fn(FindingKind) -> bool {
    |k: FindingKind| k matches FindingKind::DuplicateCandidate { keep: false, .. }
}

/// `part` is at least `percent` per cent of `total` (never when `total` is 0).
pub open spec fn share_at_least(part: nat, total: nat, percent: nat) -> bool {
    total > 0 && 100 * part >= percent * total
}

/// `part / total` in per mille, rounded to the nearest, ties to even (0 when
/// `total` is 0).
pub open spec fn per_mille(part: nat, total: nat) -> nat {
    if total == 0 {
        0
    } else {
        let q = (1000 * part) / total;
        let r = (1000 * part) % total;
        if 2 * r > total || (2 * r == total && q % 2 == 1) {
            q + 1
        } else {
            q
        }
    }
}

/// `part / total` as a percentage with one decimal, such as `20.0`.
pub open spec fn percent_text(part: nat, total: nat) -> Seq<char> {
    let t = per_mille(part, total);
    decimal(t / 10) + "."@ + decimal(t % 10)
}

/// The insight about the scan's access errors.
pub open spec fn scan_health(errors: nat, root: Seq<char>) -> InsightView {
    if errors == 0 {
        InsightView {
            severity: InsightSeverity::Info,
            title: "Scan completed without access errors"@,
            message: "All accessible entries were scanned successfully."@,
            suggested_command: None,
        }
    } else {
        InsightView {
            severity: InsightSeverity::Warning,
            title: "Some entries could not be scanned"@,
            message: "The scanner recorded "@ + decimal(errors)
                + " access error(s). Results are still usable, but totals may be incomplete."@,
            suggested_command: Some("aegis-disk scan "@ + root),
        }
    }
}

/// The insight about how the findings spread over risk levels.
pub open spec fn risk_distribution(fv: Seq<FindingView>, root: Seq<char>) -> InsightView {
    InsightView {
        severity: InsightSeverity::Notice,
        title: "Finding risk distribution"@,
        message: "Detected "@ + decimal(count_risk(fv, RiskLevel::Safe)) + " safe item(s), "@
            + decimal(count_risk(fv, RiskLevel::Review)) + " review item(s), and "@ + decimal(
            count_risk(fv, RiskLevel::Dangerous),
        ) + " dangerous item(s) under "@ + root + "."@,
        suggested_command: None,
    }
}

/// The insight about large files.
pub open spec fn large_advice(large: u64, total: u64, root: Seq<char>) -> InsightView {
    if large == 0 {
        InsightView {
            severity: InsightSeverity::Info,
            title: "No large-file pressure detected"@,
            message: "Large files do not dominate this scan result."@,
            suggested_command: None,
        }
    } else {
        InsightView {
            severity: if share_at_least(large as nat, total as nat, 35) {
                InsightSeverity::Warning
            } else {
                InsightSeverity::Notice
            },
            title: "Large files deserve manual review"@,
            message: "Large-file candidates account for about "@ + percent_text(large as nat, total as nat)
                + "% of scanned space ("@ + human_size(large) + ")."@,
            suggested_command: Some("aegis-disk large "@ + root),
        }
    }
}

/// The insight about development residue, when there is any.
pub open spec fn residue_advice(residue: u64, total: u64, root: Seq<char>) -> Seq<InsightView> {
    if residue == 0 {
        seq![]
    } else {
        seq![InsightView {
            severity: if share_at_least(residue as nat, total as nat, 15) {
                InsightSeverity::Notice
            } else {
                InsightSeverity::Info
            },
            title: "Development residue can be cleaned safely first"@,
            message: "Development residue accounts for about "@ + percent_text(residue as nat, total as nat)
                + "% of scanned space ("@ + human_size(residue) + "). Start with dry-run."@,
            suggested_command: Some("aegis-disk clean "@ + root + " --dry-run --target residue"@),
        }]
    }
}

/// The insight about duplicates, when some could be removed.
pub open spec fn duplicate_advice(dups: u64, total: u64, root: Seq<char>) -> Seq<InsightView> {
    if dups == 0 {
        seq![]
    } else {
        seq![InsightView {
            severity: if share_at_least(dups as nat, total as nat, 10) {
                InsightSeverity::Notice
            } else {
                InsightSeverity::Info
            },
            title: "Duplicate files may release extra space"@,
            message: "Duplicate removal candidates account for about "@ + percent_text(dups as nat, total as nat)
                + "% of scanned space ("@ + human_size(dups) + ")."@,
            suggested_command: Some("aegis-disk duplicates "@ + root),
        }]
    }
}

/// The insight about what to do next.
pub open spec fn next_step(any_findings: bool, root: Seq<char>) -> InsightView {
    if !any_findings {
        InsightView {
            severity: InsightSeverity::Info,
            title: "No immediate cleanup candidates"@,
            message: "The current rules did not identify large files, residue directories, or duplicates."@,
            suggested_command: Some("aegis-disk types "@ + root),
        }
    } else {
        InsightView {
            severity: InsightSeverity::Notice,
            title: "Recommended review order"@,
            message: "Review SAFE residue first, then duplicate candidates, then large files that require manual judgement."@,
            suggested_command: Some("aegis-disk tui "@ + root),
        }
    }
}

/// All insights for a scan and its findings, in order: scan health, risk
/// distribution, large files, residue, duplicates, next step.
pub open spec fn disk_insights(errors: nat, root: Seq<char>, total: u64, fv: Seq<FindingView>) -> Seq<InsightView> {
    seq![
        scan_health(errors, root),
        risk_distribution(fv, root),
        large_advice(picked_bytes(fv, is_large()) as u64, total, root),
    ] + residue_advice(picked_bytes(fv, is_residue()) as u64, total, root) + duplicate_advice(
        picked_bytes(fv, is_removable_duplicate()) as u64,
        total,
        root,
    ) + seq![next_step(fv.len() > 0, root)]
}

/// Turns scan results into advice. The shares that make an insight more
/// urgent are 35% for large files, 15% for residue and 10% for duplicates.
#[derive(Debug, Clone, Copy)]
pub struct InsightAnalyzer {
    large_file_percent: u64,
    residue_percent: u64,
    duplicate_percent: u64,
}

impl Default for InsightAnalyzer {
    fn default() -> (r: Self)
        ensures
            r.thresholds() == (35nat, 15nat, 10nat),
    {
        Self::new()
    }
}

/// Appends one insight.
fn push_insight(out: &mut Vec<DiskInsight>, i: DiskInsight)
    ensures
        view_seq(final(out)@) == view_seq(old(out)@).push(i@),
{
    let ghost before = view_seq(out@);
    let ghost iv = i@;
    out.push(i);
    assert(view_seq(out@) =~= before.push(iv));
}

/// Total size of the findings of the kind selected by `which`
/// (0: large files, 1: residue, 2: duplicates to remove).
fn kind_bytes(findings: &[Finding], which: u8) -> (r: u64)
    requires
        which <= 2,
        picked_bytes(view_seq(findings@), pick_of(which)) <= u64::MAX,
    ensures
        r == picked_bytes(view_seq(findings@), pick_of(which)),
{
    let mut sum: u64 = 0;
    let mut i: usize = 0;
    while i < findings.len()
        invariant
            which <= 2,
            i <= findings@.len(),
            picked_bytes(view_seq(findings@), pick_of(which)) <= u64::MAX,
            sum == picked_bytes(view_seq(findings@.take(i as int)), pick_of(which)),
        decreases findings.len() - i,
    {
        proof {
            assert(view_seq(findings@.take(i + 1)).drop_last() =~= view_seq(findings@.take(i as int)));
            lemma_picked_bytes_prefix(view_seq(findings@), pick_of(which), i + 1);
            assert(view_seq(findings@).take(i + 1) =~= view_seq(findings@.take(i + 1)));
        }
        let picked = match &findings[i].kind {
            FindingKind::LargeFile => which == 0,
            FindingKind::DevResidue => which == 1,
            FindingKind::DuplicateCandidate { keep, .. } => which == 2 && !*keep,
        };
        if picked {
            sum = sum + findings[i].size;
        }
        i = i + 1;
    }
    assert(findings@.take(findings@.len() as int) =~= findings@);
    sum
}

/// The selection of kinds numbered by [`kind_bytes`].
pub open spec fn pick_of(which: u8) -> spec_fn(FindingKind) -> bool {
    if which == 0 {
        is_large()
    } else if which == 1 {
        is_residue()
    } else {
        is_removable_duplicate()
    }
}

proof fn lemma_picked_bytes_prefix(fv: Seq<FindingView>, pick: spec_fn(FindingKind) -> bool, i: int)
    requires
        0 <= i <= fv.len(),
    ensures
        picked_bytes(fv.take(i), pick) <= picked_bytes(fv, pick),
    decreases fv.len() - i,
{
    if i < fv.len() {
        lemma_picked_bytes_prefix(fv, pick, i + 1);
        assert(fv.take(i + 1).drop_last() =~= fv.take(i));
    } else {
        assert(fv.take(i) =~= fv);
    }
}

/// `part / total` as a percentage with one decimal.
fn percent_string(part: u64, total: u64) -> (r: String)
    ensures
        r@ == percent_text(part as nat, total as nat),
{
    let t: u128 = if total == 0 {
        0
    } else {
        let scaled = (part as u128) * 1000;
        let q = scaled / (total as u128);
        let rem = scaled % (total as u128);
        let tt = total as u128;
        if 2 * rem > tt || (2 * rem == tt && q % 2 == 1) {
            q + 1
        } else {
            q
        }
    };
    assert(t == per_mille(part as nat, total as nat));
    let mut out = String::new();
    push_wide_number(&mut out, t / 10);
    out.append(".");
    push_wide_number(&mut out, t % 10);
    out
}

impl InsightAnalyzer {
    /// The thresholds are the standard ones, whatever analyzer is at hand.
    #[verifier::type_invariant]
    spec fn standard_thresholds(&self) -> bool {
        self.large_file_percent == 35 && self.residue_percent == 15 && self.duplicate_percent == 10
    }

    /// The urgency thresholds, in per cent of the scanned size, for large
    /// files, residue and duplicates.
    pub closed spec fn thresholds(&self) -> (nat, nat, nat) {
        (self.large_file_percent as nat, self.residue_percent as nat, self.duplicate_percent as nat)
    }

    /// The analyzer with its standard thresholds: 35%, 15% and 10%.
    pub fn new() -> (r: Self)
        ensures
            r.thresholds() == (35nat, 15nat, 10nat),
    {
        InsightAnalyzer { large_file_percent: 35, residue_percent: 15, duplicate_percent: 10 }
    }

    /// The advice for a scan and its findings, whose per-kind sizes add up
    /// within `u64`: scan health, risk distribution, large files, residue
    /// (when present), duplicates (when present) and the next step.
    pub fn analyze(&self, report: &ScanReport, findings: &[Finding]) -> (r: Vec<DiskInsight>)
        requires
            picked_bytes(view_seq(findings@), is_large()) <= u64::MAX,
            picked_bytes(view_seq(findings@), is_residue()) <= u64::MAX,
            picked_bytes(view_seq(findings@), is_removable_duplicate()) <= u64::MAX,
        ensures
            view_seq(r@) == disk_insights(
                report.stats.errors as nat,
                report.root@,
                report.stats.total_size,
                view_seq(findings@),
            ),
    {
        proof {
            use_type_invariant(self);
        }
        let root = report.root.as_str();
        let total = report.stats.total_size;
        let ghost fv = view_seq(findings@);
        let mut out: Vec<DiskInsight> = Vec::new();
        // scan health
        if report.stats.errors == 0 {
            push_insight(
                &mut out,
                DiskInsight::new(
                    InsightSeverity::Info,
                    "Scan completed without access errors".to_owned(),
                    "All accessible entries were scanned successfully.".to_owned(),
                    None,
                ),
            );
        } else {
            let mut m = String::new();
            m.append("The scanner recorded ");
            push_number(&mut m, report.stats.errors as u64);
            m.append(" access error(s). Results are still usable, but totals may be incomplete.");
            let mut c = String::new();
            c.append("aegis-disk scan ");
            c.append(root);
            push_insight(
                &mut out,
                DiskInsight::new(InsightSeverity::Warning, "Some entries could not be scanned".to_owned(), m, Some(c)),
            );
        }
        assert(view_seq(out@) =~= seq![scan_health(report.stats.errors as nat, report.root@)]);
        // risk distribution
        let mut safe: usize = 0;
        let mut review: usize = 0;
        let mut dangerous: usize = 0;
        let mut i: usize = 0;
        while i < findings.len()
            invariant
                i <= findings@.len(),
                fv == view_seq(findings@),
                safe == count_risk(fv.take(i as int), RiskLevel::Safe),
                review == count_risk(fv.take(i as int), RiskLevel::Review),
                dangerous == count_risk(fv.take(i as int), RiskLevel::Dangerous),
                safe + review + dangerous == i,
            decreases findings.len() - i,
        {
            assert(fv.take(i + 1).drop_last() =~= fv.take(i as int));
            match findings[i].risk {
                RiskLevel::Safe => safe = safe + 1,
                RiskLevel::Review => review = review + 1,
                RiskLevel::Dangerous => dangerous = dangerous + 1,
            }
            i = i + 1;
        }
        assert(fv.take(fv.len() as int) =~= fv);
        let mut m = String::new();
        m.append("Detected ");
        push_number(&mut m, safe as u64);
        m.append(" safe item(s), ");
        push_number(&mut m, review as u64);
        m.append(" review item(s), and ");
        push_number(&mut m, dangerous as u64);
        m.append(" dangerous item(s) under ");
        m.append(root);
        m.append(".");
        let ghost before = view_seq(out@);
        push_insight(&mut out, DiskInsight::new(InsightSeverity::Notice, "Finding risk distribution".to_owned(), m, None));
        assert(view_seq(out@) =~= before.push(risk_distribution(fv, report.root@)));
        // large files
        let large = kind_bytes(findings, 0);
        let ghost before = view_seq(out@);
        if large == 0 {
            push_insight(
                &mut out,
                DiskInsight::new(
                    InsightSeverity::Info,
                    "No large-file pressure detected".to_owned(),
                    "Large files do not dominate this scan result.".to_owned(),
                    None,
                ),
            );
        } else {
            let severity = if total > 0 && (large as u128) * 100 >= (self.large_file_percent as u128) * (total as u128) {
                InsightSeverity::Warning
            } else {
                InsightSeverity::Notice
            };
            let mut m = String::new();
            m.append("Large-file candidates account for about ");
            let pct = percent_string(large, total);
            m.append(pct.as_str());
            m.append("% of scanned space (");
            let b = bytes(large);
            m.append(b.as_str());
            m.append(").");
            let mut c = String::new();
            c.append("aegis-disk large ");
            c.append(root);
            push_insight(&mut out, DiskInsight::new(severity, "Large files deserve manual review".to_owned(), m, Some(c)));
        }
        assert(view_seq(out@) =~= before.push(large_advice(large, total, report.root@)));
        // residue
        let residue = kind_bytes(findings, 1);
        let ghost before = view_seq(out@);
        if residue != 0 {
            let severity = if total > 0 && (residue as u128) * 100 >= (self.residue_percent as u128) * (total as u128) {
                InsightSeverity::Notice
            } else {
                InsightSeverity::Info
            };
            let mut m = String::new();
            m.append("Development residue accounts for about ");
            let pct = percent_string(residue, total);
            m.append(pct.as_str());
            m.append("% of scanned space (");
            let b = bytes(residue);
            m.append(b.as_str());
            m.append("). Start with dry-run.");
            let mut c = String::new();
            c.append("aegis-disk clean ");
            c.append(root);
            c.append(" --dry-run --target residue");
            push_insight(
                &mut out,
                DiskInsight::new(severity, "Development residue can be cleaned safely first".to_owned(), m, Some(c)),
            );
        }
        assert(view_seq(out@) =~= before + residue_advice(residue, total, report.root@));
        // duplicates
        let dups = kind_bytes(findings, 2);
        let ghost before = view_seq(out@);
        if dups != 0 {
            let severity = if total > 0 && (dups as u128) * 100 >= (self.duplicate_percent as u128) * (total as u128) {
                InsightSeverity::Notice
            } else {
                InsightSeverity::Info
            };
            let mut m = String::new();
            m.append("Duplicate removal candidates account for about ");
            let pct = percent_string(dups, total);
            m.append(pct.as_str());
            m.append("% of scanned space (");
            let b = bytes(dups);
            m.append(b.as_str());
            m.append(").");
            let mut c = String::new();
            c.append("aegis-disk duplicates ");
            c.append(root);
            push_insight(
                &mut out,
                DiskInsight::new(severity, "Duplicate files may release extra space".to_owned(), m, Some(c)),
            );
        }
        assert(view_seq(out@) =~= before + duplicate_advice(dups, total, report.root@));
        // next step
        let ghost before = view_seq(out@);
        if findings.len() == 0 {
            let mut c = String::new();
            c.append("aegis-disk types ");
            c.append(root);
            push_insight(
                &mut out,
                DiskInsight::new(
                    InsightSeverity::Info,
                    "No immediate cleanup candidates".to_owned(),
                    "The current rules did not identify large files, residue directories, or duplicates.".to_owned(),
                    Some(c),
                ),
            );
        } else {
            let mut c = String::new();
            c.append("aegis-disk tui ");
            c.append(root);
            push_insight(
                &mut out,
                DiskInsight::new(
                    InsightSeverity::Notice,
                    "Recommended review order".to_owned(),
                    "Review SAFE residue first, then duplicate candidates, then large files that require manual judgement.".to_owned(),
                    Some(c),
                ),
            );
        }
        assert(view_seq(out@) =~= before.push(next_step(fv.len() > 0, report.root@)));
        assert(view_seq(out@) =~= disk_insights(report.stats.errors as nat, report.root@, total, fv));
        out
    }
}

/// The advice always opens with the scan's health and the risk distribution,
/// holds between four and six insights, and closes with a suggested command.
pub proof fn lemma_advice_shape(errors: nat, root: Seq<char>, total: u64, fv: Seq<FindingView>)
    ensures
        ({
            let a = disk_insights(errors, root, total, fv);
            &&& 4 <= a.len() <= 6
            &&& a[0] == scan_health(errors, root)
            &&& a[1] == risk_distribution(fv, root)
            &&& a.last() == next_step(fv.len() > 0, root)
            &&& a.last().suggested_command is Some
        }),
{
}

} // verus!
