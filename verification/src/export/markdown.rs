//! The Markdown report: a title, the scan summary, the advice, up to 100
//! findings, up to 50 file types and a safety note.
use vstd::prelude::*;
use vstd::string::*;
use crate::analysis::{risk_label, DiskInsight, FileTypeStat, Finding, FindingKind, FindingView};
use crate::analysis::file_type::StatView;
use crate::analysis::insight::{severity_label, InsightView};
use crate::export::ExportContext;
use crate::fs::metadata::ScanStats;
use crate::order::{first_n, view_seq};
use crate::text::{decimal, push_chars, push_number, replace_char, replace_chars, str_chars};
use crate::utils::format::{bytes, human_size};

verus! {

/// A table cell: `|` escaped as `\|`, line breaks turned into spaces.
pub open spec fn escape_cell(s: Seq<char>) -> Seq<char> {
    replace_char(replace_char(s, '|', "\\|"@), '\n', " "@)
}

/// How the Markdown report names a finding's kind.
pub open spec fn md_kind_label(k: FindingKind) -> Seq<char> {
    match k {
        FindingKind::LargeFile => "large-file"@,
        FindingKind::DevResidue => "dev-residue"@,
        FindingKind::DuplicateCandidate { group_id, keep } => "duplicate-"@ + decimal(group_id as nat) + if keep {
            "-keep"@
        } else {
            "-remove"@
        },
    }
}

/// The table row of a finding.
pub open spec fn finding_row(f: FindingView) -> Seq<char> {
    "| "@ + risk_label(f.risk) + " | "@ + human_size(f.size) + " | "@ + md_kind_label(f.kind) + " | `"@
        + escape_cell(f.path) + "` | "@ + escape_cell(f.reason) + " |\n"@
}

/// The rows of the findings, in order.
pub open spec fn finding_rows(fv: Seq<FindingView>) -> Seq<char>
    decreases fv.len(),
{
    if fv.len() == 0 {
        Seq::empty()
    } else {
        finding_rows(fv.drop_last()) + finding_row(fv.last())
    }
}

/// The mean file size of a file type, rounded down.
pub open spec fn average_of(st: StatView) -> u64 {
    if st.files == 0 {
        0
    } else {
        (st.total_size as nat / st.files) as u64
    }
}

/// The largest-file cell of a file type.
pub open spec fn largest_cell(o: Option<Seq<char>>) -> Seq<char> {
    match o {
        Some(p) => escape_cell(p),
        None => "-"@,
    }
}

/// The table row of a file type.
pub open spec fn type_row(st: StatView) -> Seq<char> {
    "| `"@ + escape_cell(st.extension) + "` | "@ + decimal(st.files) + " | "@ + human_size(st.total_size) + " | "@
        + human_size(average_of(st)) + " | "@ + largest_cell(st.largest_file) + " |\n"@
}

/// The rows of the file types, in order.
pub open spec fn type_rows(sv: Seq<StatView>) -> Seq<char>
    decreases sv.len(),
{
    if sv.len() == 0 {
        Seq::empty()
    } else {
        type_rows(sv.drop_last()) + type_row(sv.last())
    }
}

/// The block of one insight.
pub open spec fn insight_block(iv: InsightView) -> Seq<char> {
    "### ["@ + severity_label(iv.severity) + "] "@ + iv.title + "\n\n"@ + iv.message + "\n\n"@ + match iv.suggested_command {
        Some(c) => "Suggested command:\n\n```bash\n"@ + c + "\n```\n\n"@,
        None => Seq::empty(),
    }
}

/// The blocks of the insights, in order.
pub open spec fn insight_blocks(ivs: Seq<InsightView>) -> Seq<char>
    decreases ivs.len(),
{
    if ivs.len() == 0 {
        Seq::empty()
    } else {
        insight_blocks(ivs.drop_last()) + insight_block(ivs.last())
    }
}

/// The title section.
pub open spec fn md_title(root: Seq<char>) -> Seq<char> {
    "# AegisDisk Scan Report\n\n"@ + "- Root: `"@ + root + "`\n"@ + "- Format: Markdown\n\n"@
}

/// The summary section.
pub open spec fn md_summary(stats: ScanStats, findings: nat) -> Seq<char> {
    "## 1. Scan Summary\n\n"@ + "| Metric | Value |\n"@ + "|---|---:|\n"@ + "| Files | "@ + decimal(stats.files as nat)
        + " |\n"@ + "| Directories | "@ + decimal(stats.dirs as nat) + " |\n"@ + "| Total Size | "@ + human_size(
        stats.total_size,
    ) + " |\n"@ + "| Access Errors | "@ + decimal(stats.errors as nat) + " |\n"@ + "| Findings | "@ + decimal(
        findings,
    ) + " |\n\n"@
}

/// The advice section.
pub open spec fn md_insights(ivs: Seq<InsightView>) -> Seq<char> {
    "## 2. Diagnostic Insights\n\n"@ + if ivs.len() == 0 {
        "No diagnostic insight was generated.\n\n"@
    } else {
        insight_blocks(ivs)
    }
}

/// The findings section: a table of the first 100 findings, with a note of
/// the total when there are more.
pub open spec fn md_findings(fv: Seq<FindingView>) -> Seq<char> {
    "## 3. Findings\n\n"@ + if fv.len() == 0 {
        "No findings were detected by the enabled analyzers.\n\n"@
    } else {
        "| Risk | Size | Kind | Path | Reason |\n"@ + "|---|---:|---|---|---|\n"@ + finding_rows(first_n(fv, 100))
            + (if fv.len() > 100 {
            "\nOnly the first 100 findings are listed. Total findings: "@ + decimal(fv.len()) + ".\n"@
        } else {
            Seq::empty()
        }) + "\n"@
    }
}

/// The file-type section: a table of the first 50 types.
pub open spec fn md_file_types(sv: Seq<StatView>) -> Seq<char> {
    "## 4. File Type Distribution\n\n"@ + if sv.len() == 0 {
        "No file type statistics were generated.\n\n"@
    } else {
        "| Extension | Files | Total Size | Average Size | Largest File |\n"@ + "|---|---:|---:|---:|---|\n"@
            + type_rows(first_n(sv, 50)) + "\n"@
    }
}

/// The closing safety note.
pub open spec fn md_footer() -> Seq<char> {
    "## 5. Safety Note\n\n"@
        + "This report is read-only. Before executing cleanup, run `clean --dry-run` first and review all paths manually.\n"@
}

/// The whole Markdown report.
pub open spec fn markdown_report(
    root: Seq<char>,
    stats: ScanStats,
    ivs: Seq<InsightView>,
    fv: Seq<FindingView>,
    sv: Seq<StatView>,
) -> Seq<char> {
    md_title(root) + md_summary(stats, fv.len()) + md_insights(ivs) + md_findings(fv) + md_file_types(sv)
        + md_footer()
}

/// A string escaped for a table cell.
fn escaped(s: &str) -> (r: Vec<char>)
    ensures
        r@ == escape_cell(s@),
{
    let chars = str_chars(s);
    let bar = str_chars("\\|");
    let space = str_chars(" ");
    let once = replace_chars(&chars, '|', &bar);
    replace_chars(&once, '\n', &space)
}

/// Appends the Markdown name of a finding's kind.
fn push_kind_label(out: &mut String, k: &FindingKind)
    ensures
        final(out)@ == old(out)@ + md_kind_label(*k),
{
    match k {
        FindingKind::LargeFile => out.append("large-file"),
        FindingKind::DevResidue => out.append("dev-residue"),
        FindingKind::DuplicateCandidate { group_id, keep } => {
            out.append("duplicate-");
            push_number(out, *group_id as u64);
            if *keep {
                out.append("-keep");
            } else {
                out.append("-remove");
            }
        },
    }
    assert(final(out)@ =~= old(out)@ + md_kind_label(*k));
}

/// Appends the row of a finding.
fn push_finding_row(out: &mut String, f: &Finding)
    ensures
        final(out)@ == old(out)@ + finding_row(f@),
{
    out.append("| ");
    out.append(f.risk.label());
    out.append(" | ");
    let size = bytes(f.size);
    out.append(size.as_str());
    out.append(" | ");
    push_kind_label(out, &f.kind);
    out.append(" | `");
    push_chars(out, &escaped(f.path.as_str()));
    out.append("` | ");
    push_chars(out, &escaped(f.reason.as_str()));
    out.append(" |\n");
    assert(final(out)@ =~= old(out)@ + finding_row(f@));
}

/// Appends the row of a file type.
fn push_type_row(out: &mut String, st: &FileTypeStat)
    ensures
        final(out)@ == old(out)@ + type_row(st@),
{
    out.append("| `");
    push_chars(out, &escaped(st.display_extension()));
    out.append("` | ");
    push_number(out, st.files as u64);
    out.append(" | ");
    let total = bytes(st.total_size);
    out.append(total.as_str());
    out.append(" | ");
    let avg = bytes(st.average_size());
    out.append(avg.as_str());
    out.append(" | ");
    match &st.largest_file {
        Some(p) => push_chars(out, &escaped(p.as_str())),
        None => out.append("-"),
    }
    out.append(" |\n");
    assert(final(out)@ =~= old(out)@ + type_row(st@));
}

/// Appends the block of an insight.
fn push_insight_block(out: &mut String, i: &DiskInsight)
    ensures
        final(out)@ == old(out)@ + insight_block(i@),
{
    out.append("### [");
    out.append(i.severity.label());
    out.append("] ");
    out.append(i.title.as_str());
    out.append("\n\n");
    out.append(i.message.as_str());
    out.append("\n\n");
    match &i.suggested_command {
        Some(c) => {
            out.append("Suggested command:\n\n```bash\n");
            out.append(c.as_str());
            out.append("\n```\n\n");
        },
        None => {},
    }
    assert(final(out)@ =~= old(out)@ + insight_block(i@));
}

/// Appends the title section.
fn push_title(out: &mut String, context: &ExportContext)
    ensures
        final(out)@ == old(out)@ + md_title(context.report.root@),
{
    out.append("# AegisDisk Scan Report\n\n");
    out.append("- Root: `");
    out.append(context.root().as_str());
    out.append("`\n");
    out.append("- Format: Markdown\n\n");
    assert(final(out)@ =~= old(out)@ + md_title(context.report.root@));
}

/// Appends the summary section.
fn push_summary(out: &mut String, context: &ExportContext)
    ensures
        final(out)@ == old(out)@ + md_summary(context.report.stats, context.findings@.len()),
{
    let stats = &context.report.stats;
    out.append("## 1. Scan Summary\n\n");
    out.append("| Metric | Value |\n");
    out.append("|---|---:|\n");
    out.append("| Files | ");
    push_number(out, stats.files as u64);
    out.append(" |\n");
    out.append("| Directories | ");
    push_number(out, stats.dirs as u64);
    out.append(" |\n");
    out.append("| Total Size | ");
    let total = bytes(stats.total_size);
    out.append(total.as_str());
    out.append(" |\n");
    out.append("| Access Errors | ");
    push_number(out, stats.errors as u64);
    out.append(" |\n");
    out.append("| Findings | ");
    push_number(out, context.findings.len() as u64);
    out.append(" |\n\n");
    assert(final(out)@ =~= old(out)@ + md_summary(*stats, context.findings@.len()));
}

/// Appends the advice section.
fn push_insights(out: &mut String, context: &ExportContext)
    ensures
        final(out)@ == old(out)@ + md_insights(view_seq(context.insights@)),
{
    let ghost ivs = view_seq(context.insights@);
    out.append("## 2. Diagnostic Insights\n\n");
    if context.insights.len() == 0 {
        out.append("No diagnostic insight was generated.\n\n");
    } else {
        let ghost start = out@;
        let mut i: usize = 0;
        while i < context.insights.len()
            invariant
                i <= context.insights@.len(),
                ivs == view_seq(context.insights@),
                out@ == start + insight_blocks(ivs.take(i as int)),
            decreases context.insights.len() - i,
        {
            assert(ivs.take(i + 1).drop_last() =~= ivs.take(i as int));
            push_insight_block(out, &context.insights[i]);
            assert(out@ =~= start + insight_blocks(ivs.take(i + 1)));
            i = i + 1;
        }
        assert(ivs.take(ivs.len() as int) =~= ivs);
    }
    assert(final(out)@ =~= old(out)@ + md_insights(ivs));
}

/// Appends the rows of the first `shown` findings.
fn push_finding_rows(out: &mut String, findings: &Vec<Finding>, shown: usize)
    requires
        shown <= findings@.len(),
    ensures
        final(out)@ == old(out)@ + finding_rows(view_seq(findings@).take(shown as int)),
{
    let ghost fv = view_seq(findings@);
    let ghost start = out@;
    let mut i: usize = 0;
    while i < shown
        invariant
            i <= shown <= findings@.len(),
            fv == view_seq(findings@),
            out@ == start + finding_rows(fv.take(i as int)),
        decreases shown - i,
    {
        assert(fv.take(i + 1).drop_last() =~= fv.take(i as int));
        push_finding_row(out, &findings[i]);
        assert(out@ =~= start + finding_rows(fv.take(i + 1)));
        i = i + 1;
    }
}

/// Appends the findings section.
fn push_findings(out: &mut String, context: &ExportContext)
    ensures
        final(out)@ == old(out)@ + md_findings(view_seq(context.findings@)),
{
    let ghost fv = view_seq(context.findings@);
    out.append("## 3. Findings\n\n");
    let n = context.findings.len();
    if n == 0 {
        out.append("No findings were detected by the enabled analyzers.\n\n");
    } else {
        out.append("| Risk | Size | Kind | Path | Reason |\n");
        out.append("|---|---:|---|---|---|\n");
        let shown: usize = if n > 100 {
            100
        } else {
            n
        };
        assert(first_n(fv, 100) =~= fv.take(shown as int));
        push_finding_rows(out, &context.findings, shown);
        if n > 100 {
            out.append("\nOnly the first 100 findings are listed. Total findings: ");
            push_number(out, n as u64);
            out.append(".\n");
        }
        out.append("\n");
    }
    assert(final(out)@ =~= old(out)@ + md_findings(fv));
}

/// Appends the rows of the first `shown` file types.
fn push_type_rows(out: &mut String, types: &Vec<FileTypeStat>, shown: usize)
    requires
        shown <= types@.len(),
    ensures
        final(out)@ == old(out)@ + type_rows(view_seq(types@).take(shown as int)),
{
    let ghost sv = view_seq(types@);
    let ghost start = out@;
    let mut i: usize = 0;
    while i < shown
        invariant
            i <= shown <= types@.len(),
            sv == view_seq(types@),
            out@ == start + type_rows(sv.take(i as int)),
        decreases shown - i,
    {
        assert(sv.take(i + 1).drop_last() =~= sv.take(i as int));
        push_type_row(out, &types[i]);
        assert(out@ =~= start + type_rows(sv.take(i + 1)));
        i = i + 1;
    }
}

/// Appends the file-type section.
fn push_file_types(out: &mut String, context: &ExportContext)
    ensures
        final(out)@ == old(out)@ + md_file_types(view_seq(context.file_types@)),
{
    let ghost sv = view_seq(context.file_types@);
    out.append("## 4. File Type Distribution\n\n");
    let m = context.file_types.len();
    if m == 0 {
        out.append("No file type statistics were generated.\n\n");
    } else {
        out.append("| Extension | Files | Total Size | Average Size | Largest File |\n");
        out.append("|---|---:|---:|---:|---|\n");
        let shown: usize = if m > 50 {
            50
        } else {
            m
        };
        assert(first_n(sv, 50) =~= sv.take(shown as int));
        push_type_rows(out, &context.file_types, shown);
        out.append("\n");
    }
    assert(final(out)@ =~= old(out)@ + md_file_types(sv));
}

/// Appends the safety note.
fn push_footer(out: &mut String)
    ensures
        final(out)@ == old(out)@ + md_footer(),
{
    out.append("## 5. Safety Note\n\n");
    out.append(
        "This report is read-only. Before executing cleanup, run `clean --dry-run` first and review all paths manually.\n",
    );
    assert(final(out)@ =~= old(out)@ + md_footer());
}

/// Renders the Markdown report of a context.
pub fn render_markdown(context: &ExportContext) -> (r: String)
    ensures
        r@ == markdown_report(
            context.report.root@,
            context.report.stats,
            view_seq(context.insights@),
            view_seq(context.findings@),
            view_seq(context.file_types@),
        ),
{
    let mut out = String::new();
    push_title(&mut out, context);
    push_summary(&mut out, context);
    push_insights(&mut out, context);
    push_findings(&mut out, context);
    push_file_types(&mut out, context);
    push_footer(&mut out);
    assert(out@ =~= markdown_report(
        context.report.root@,
        context.report.stats,
        view_seq(context.insights@),
        view_seq(context.findings@),
        view_seq(context.file_types@),
    ));
    out
}

/// A character replaced by text free of `c` leaves no `c` behind.
proof fn lemma_replace_removes(s: Seq<char>, from: char, to: Seq<char>, c: char)
    requires
        !to.contains(c),
        from == c || !s.contains(c),
    ensures
        !replace_char(s, from, to).contains(c),
    decreases s.len(),
{
    if s.len() > 0 {
        let rest = s.drop_last();
        assert(from == c || !rest.contains(c)) by {
            if from != c && rest.contains(c) {
                let j = choose|j: int| 0 <= j < rest.len() && rest[j] == c;
                assert(s[j] == c);
            }
        }
        lemma_replace_removes(rest, from, to, c);
        let tail = if s.last() == from {
            to
        } else {
            seq![s.last()]
        };
        assert(!tail.contains(c)) by {
            if s.last() != from && tail.contains(c) {
                assert(s[s.len() - 1] == c);
            }
        }
        let whole = replace_char(rest, from, to) + tail;
        assert forall|j: int| 0 <= j < whole.len() implies whole[j] != c by {
            if j < replace_char(rest, from, to).len() {
                assert(whole[j] == replace_char(rest, from, to)[j]);
            } else {
                assert(whole[j] == tail[j - replace_char(rest, from, to).len()]);
            }
        }
    }
}

/// An escaped cell never holds a line break, so a row stays on one line.
pub proof fn lemma_escaped_cell_single_line(s: Seq<char>)
    ensures
        !escape_cell(s).contains('\n'),
{
    reveal_strlit(" ");
    lemma_replace_removes(replace_char(s, '|', "\\|"@), '\n', " "@, '\n');
}

} // verus!
