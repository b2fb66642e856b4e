//! The text of the three panels and the status bar. Layout, colours and
//! borders are the terminal library's; what each line says is decided here.
use vstd::prelude::*;
use vstd::string::*;
use crate::analysis::{risk_label, Finding, FindingKind};
use crate::text::{decimal, push_number, push_owned, str_chars};
use crate::order::view_seq;
use crate::tui::state::{lemma_visible_in_range, FocusPanel, TuiState};
use crate::utils::format::{bytes, human_size};

verus! {

/// The name of a panel.
pub open spec fn panel_name(p: FocusPanel) -> Seq<char> {
    match p {
        FocusPanel::Overview => "Overview"@,
        FocusPanel::Findings => "Findings"@,
        FocusPanel::Details => "Details"@,
    }
}

/// The name shown for a panel.
pub fn focus_label(p: FocusPanel) -> (r: &'static str)
    ensures
        r@ == panel_name(p),
{
    match p {
        FocusPanel::Overview => "Overview",
        FocusPanel::Findings => "Findings",
        FocusPanel::Details => "Details",
    }
}

/// A panel's title: starred when the panel has the focus.
pub open spec fn panel_title(title: Seq<char>, focused: bool) -> Seq<char> {
    if focused {
        "* "@ + title + " *"@
    } else {
        title
    }
}

/// The title of a panel.
pub fn block_title(title: &str, focused: bool) -> (r: String)
    ensures
        r@ == panel_title(title@, focused),
{
    if focused {
        let mut out = String::new();
        out.append("* ");
        out.append(title);
        out.append(" *");
        out
    } else {
        title.to_owned()
    }
}

/// The short name of a finding's kind, as the terminal shows it.
pub open spec fn short_kind_label(k: FindingKind) -> Seq<char> {
    match k {
        FindingKind::LargeFile => "large-file"@,
        FindingKind::DevResidue => "dev-residue"@,
        FindingKind::DuplicateCandidate { group_id, keep } => "dup-"@ + decimal(group_id as nat) + if keep {
            "-keep"@
        } else {
            "-remove"@
        },
    }
}

/// The short name of a finding's kind.
pub fn kind_label(k: &FindingKind) -> (r: String)
    ensures
        r@ == short_kind_label(*k),
{
    let mut out = String::new();
    match k {
        FindingKind::LargeFile => out.append("large-file"),
        FindingKind::DevResidue => out.append("dev-residue"),
        FindingKind::DuplicateCandidate { group_id, keep } => {
            out.append("dup-");
            push_number(&mut out, *group_id as u64);
            if *keep {
                out.append("-keep");
            } else {
                out.append("-remove");
            }
        },
    }
    out
}

/// `n` spaces.
pub open spec fn spaces(n: nat) -> Seq<char> {
    Seq::new(n, |i: int| ' ')
}

/// `s` padded with spaces on the right to `width` characters.
pub open spec fn pad_right(s: Seq<char>, width: nat) -> Seq<char> {
    if s.len() < width {
        s + spaces((width - s.len()) as nat)
    } else {
        s
    }
}

/// `s` padded with spaces on the left to `width` characters.
pub open spec fn pad_left(s: Seq<char>, width: nat) -> Seq<char> {
    if s.len() < width {
        spaces((width - s.len()) as nat) + s
    } else {
        s
    }
}

/// Appends `n` spaces.
fn push_spaces(out: &mut String, n: usize)
    ensures
        final(out)@ == old(out)@ + spaces(n as nat),
{
    let ghost start = out@;
    let mut k: usize = 0;
    while k < n
        invariant
            k <= n,
            out@ == start + spaces(k as nat),
        decreases n - k,
    {
        out.append(" ");
        proof {
            reveal_strlit(" ");
        }
        assert(out@ =~= start + spaces((k + 1) as nat));
        k = k + 1;
    }
}

/// Appends `s` padded on the right to `width` characters.
fn push_padded_right(out: &mut String, s: &str, width: usize)
    ensures
        final(out)@ == old(out)@ + pad_right(s@, width as nat),
{
    let n = str_chars(s).len();
    out.append(s);
    if n < width {
        push_spaces(out, width - n);
    }
    assert(final(out)@ =~= old(out)@ + pad_right(s@, width as nat));
}

/// Appends `s` padded on the left to `width` characters.
fn push_padded_left(out: &mut String, s: &str, width: usize)
    ensures
        final(out)@ == old(out)@ + pad_left(s@, width as nat),
{
    let n = str_chars(s).len();
    if n < width {
        push_spaces(out, width - n);
    }
    out.append(s);
    assert(final(out)@ =~= old(out)@ + pad_left(s@, width as nat));
}

/// The lines of the overview panel.
pub open spec fn overview_text(state: TuiState) -> Seq<Seq<char>> {
    let stats = state.report.stats;
    seq![
        "AegisDisk"@,
        ""@,
        "Root: "@ + state.report.root@,
        "Files: "@ + decimal(stats.files as nat),
        "Dirs: "@ + decimal(stats.dirs as nat),
        "Total: "@ + human_size(stats.total_size),
        "Errors: "@ + decimal(stats.errors as nat),
        ""@,
        "Keys:"@,
        "  q/Esc/Ctrl+C quit"@,
        "  ↑/↓ or n/p move selected finding"@,
        "  ←/→ or Enter/Space switch panel"@,
    ]
}

/// Appends a line.
fn push_line(lines: &mut Vec<String>, s: String)
    ensures
        final(lines).deep_view() == old(lines).deep_view().push(s@),
{
    let ghost before = lines.deep_view();
    let ghost sv = s@;
    lines.push(s);
    assert(lines.deep_view() =~= before.push(sv));
}

/// A label followed by a number.
fn labelled_number(label: &str, n: u64) -> (r: String)
    ensures
        r@ == label@ + decimal(n as nat),
{
    let mut out = String::new();
    out.append(label);
    push_number(&mut out, n);
    out
}

/// A label followed by a text.
fn labelled_text(label: &str, text: &str) -> (r: String)
    ensures
        r@ == label@ + text@,
{
    let mut out = String::new();
    out.append(label);
    out.append(text);
    out
}

/// The lines of the overview panel.
pub fn overview_lines(state: &TuiState) -> (r: Vec<String>)
    ensures
        r.deep_view() == overview_text(*state),
{
    let stats = &state.report.stats;
    let mut lines: Vec<String> = Vec::new();
    push_owned(&mut lines, "AegisDisk");
    push_owned(&mut lines, "");
    push_line(&mut lines, labelled_text("Root: ", state.report.root.as_str()));
    push_line(&mut lines, labelled_number("Files: ", stats.files as u64));
    push_line(&mut lines, labelled_number("Dirs: ", stats.dirs as u64));
    let total = bytes(stats.total_size);
    push_line(&mut lines, labelled_text("Total: ", total.as_str()));
    push_line(&mut lines, labelled_number("Errors: ", stats.errors as u64));
    push_owned(&mut lines, "");
    push_owned(&mut lines, "Keys:");
    push_owned(&mut lines, "  q/Esc/Ctrl+C quit");
    push_owned(&mut lines, "  ↑/↓ or n/p move selected finding");
    push_owned(&mut lines, "  ←/→ or Enter/Space switch panel");
    assert(lines.deep_view() =~= overview_text(*state));
    lines
}

/// The list line of the finding at place `idx` of the list: a `>` marks the
/// selected place, then the risk, the size and the kind.
pub open spec fn finding_line(f: Finding, idx: int, selected: int) -> Seq<char> {
    (if idx == selected {
        ">"@
    } else {
        " "@
    }) + " "@ + pad_right(risk_label(f.risk), 8) + " "@ + pad_left(human_size(f.size), 10) + " "@
        + short_kind_label(f.kind)
}

/// The lines of the findings at the listed positions, in list order;
/// positions past the end of the findings are left out.
pub open spec fn list_lines(findings: Seq<Finding>, vis: Seq<usize>, selected: int) -> Seq<Seq<char>>
    decreases vis.len(),
{
    if vis.len() == 0 {
        seq![]
    } else {
        let k = vis.len() - 1;
        let rest = list_lines(findings, vis.drop_last(), selected);
        if vis[k] < findings.len() {
            rest.push(finding_line(findings[vis[k] as int], k, selected))
        } else {
            rest
        }
    }
}

/// The lines of the finding list: the findings shown, in display order,
/// with the selected place marked, or a hint when nothing is shown.
pub open spec fn findings_text(state: TuiState) -> Seq<Seq<char>> {
    if state.visible().len() == 0 {
        seq!["No findings. Try: cargo run -- tui demo"@]
    } else {
        list_lines(state.findings@, state.visible(), state.selected as int)
    }
}

/// The lines of the finding list.
pub fn finding_lines(state: &TuiState) -> (r: Vec<String>)
    ensures
        r.deep_view() == findings_text(*state),
{
    let mut lines: Vec<String> = Vec::new();
    let n = state.visible_len();
    if n == 0 {
        push_owned(&mut lines, "No findings. Try: cargo run -- tui demo");
        assert(lines.deep_view() =~= findings_text(*state));
        return lines;
    }
    let mut i: usize = 0;
    while i < n
        invariant
            n == state.visible().len(),
            i <= n,
            lines.deep_view() == list_lines(state.findings@, state.visible().take(i as int), state.selected as int),
        decreases n - i,
    {
        assert(state.visible().take(i + 1).drop_last() =~= state.visible().take(i as int));
        let idx = state.visible_position(i);
        if idx < state.findings.len() {
            let f = &state.findings[idx];
            let mut line = String::new();
            if i == state.selected {
                line.append(">");
            } else {
                line.append(" ");
            }
            line.append(" ");
            push_padded_right(&mut line, f.risk.label(), 8);
            line.append(" ");
            let size = bytes(f.size);
            push_padded_left(&mut line, size.as_str(), 10);
            line.append(" ");
            let label = kind_label(&f.kind);
            line.append(label.as_str());
            assert(line@ =~= finding_line(*f, i as int, state.selected as int));
            push_line(&mut lines, line);
        }
        i = i + 1;
    }
    assert(state.visible().take(n as int) =~= state.visible());
    lines
}

/// The list lines when every listed position is a finding: one line per
/// place.
proof fn lemma_list_lines_full(findings: Seq<Finding>, vis: Seq<usize>, selected: int)
    requires
        forall|j: int| 0 <= j < vis.len() ==> #[trigger] vis[j] < findings.len(),
    ensures
        list_lines(findings, vis, selected) == Seq::new(
            vis.len(),
            |i: int| finding_line(findings[vis[i] as int], i, selected),
        ),
    decreases vis.len(),
{
    if vis.len() > 0 {
        let d = vis.drop_last();
        assert forall|j: int| 0 <= j < d.len() implies #[trigger] d[j] < findings.len() by {
            assert(d[j] == vis[j]);
        }
        lemma_list_lines_full(findings, d, selected);
        assert(vis[vis.len() - 1] < findings.len());
        assert(list_lines(findings, vis, selected) =~= Seq::new(
            vis.len(),
            |i: int| finding_line(findings[vis[i] as int], i, selected),
        ));
    }
}

/// The finding list shows the findings in display order, one line each,
/// and the line marked `>` is the selected one, the finding the details
/// panel shows.
pub proof fn lemma_list_marks_selection(state: TuiState)
    requires
        state.consistent(),
        state.visible().len() > 0,
    ensures
        findings_text(state) == Seq::new(
            state.visible().len(),
            |i: int| finding_line(state.findings@[state.visible()[i] as int], i, state.selected as int),
        ),
        forall|i: int|
            0 <= i < findings_text(state).len() ==> (#[trigger] findings_text(state)[i][0] == '>' <==> i
                == state.selected),
        state.selected < findings_text(state).len(),
{
    lemma_visible_in_range(state.visible(), view_seq(state.findings@), state.filter, state.sort);
    assert forall|j: int| 0 <= j < state.visible().len() implies #[trigger] state.visible()[j] < state.findings@.len() by {
        assert(state.visible()[j] < view_seq(state.findings@).len());
    }
    lemma_list_lines_full(state.findings@, state.visible(), state.selected as int);
    reveal_strlit(">");
    reveal_strlit(" ");
    assert forall|i: int| 0 <= i < findings_text(state).len() implies (#[trigger] findings_text(state)[i][0] == '>'
        <==> i == state.selected) by {
        let f = state.findings@[state.visible()[i] as int];
        let line = finding_line(f, i, state.selected as int);
        assert(findings_text(state)[i] == line);
        if i == state.selected {
            assert(line[0] == ">"@[0]);
        } else {
            assert(line[0] == " "@[0]);
        }
    }
}

/// The lines of the details panel: the selected finding in full, or a hint.
pub open spec fn details_text(state: TuiState) -> Seq<Seq<char>> {
    let s = state.selected as int;
    let vis = state.visible();
    if s < vis.len() && vis[s] < state.findings@.len() {
        let f = state.findings@[vis[s] as int];
        seq![
            "Selected: "@ + decimal((s + 1) as nat) + "/"@ + decimal(state.findings@.len()),
            "Risk: "@ + risk_label(f.risk),
            "Kind: "@ + short_kind_label(f.kind),
            "Size: "@ + human_size(f.size),
            ""@,
            "Path:"@,
            f.path@,
            ""@,
            "Reason:"@,
            f.reason@,
            ""@,
            "Use CLI clean --dry-run first."@,
        ]
    } else {
        seq![
            "No finding selected."@,
            ""@,
            "If the list is empty, create demo data or scan a directory with"@,
            "large files, duplicate files, target/, node_modules/, etc."@,
        ]
    }
}

/// The lines of the details panel.
pub fn detail_lines(state: &TuiState) -> (r: Vec<String>)
    ensures
        r.deep_view() == details_text(*state),
{
    let mut lines: Vec<String> = Vec::new();
    let shown = state.visible_len();
    match state.selected_finding() {
        Some(f) => {
            assert(state.selected < shown);
            let mut first = labelled_number("Selected: ", (state.selected + 1) as u64);
            first.append("/");
            push_number(&mut first, state.findings.len() as u64);
            push_line(&mut lines, first);
            push_line(&mut lines, labelled_text("Risk: ", f.risk.label()));
            let kind = kind_label(&f.kind);
            push_line(&mut lines, labelled_text("Kind: ", kind.as_str()));
            let size = bytes(f.size);
            push_line(&mut lines, labelled_text("Size: ", size.as_str()));
            push_owned(&mut lines, "");
            push_owned(&mut lines, "Path:");
            push_line(&mut lines, f.path.clone());
            push_owned(&mut lines, "");
            push_owned(&mut lines, "Reason:");
            push_line(&mut lines, f.reason.clone());
            push_owned(&mut lines, "");
            push_owned(&mut lines, "Use CLI clean --dry-run first.");
        },
        None => {
            push_owned(&mut lines, "No finding selected.");
            push_owned(&mut lines, "");
            push_owned(&mut lines, "If the list is empty, create demo data or scan a directory with");
            push_owned(&mut lines, "large files, duplicate files, target/, node_modules/, etc.");
        },
    }
    assert(lines.deep_view() =~= details_text(*state));
    lines
}

/// The selection part of the status bar.
pub open spec fn status_selection_text(state: TuiState) -> Seq<char> {
    if state.findings@.len() == 0 {
        "selected: none"@
    } else {
        "selected: "@ + decimal((state.selected + 1) as nat) + "/"@ + decimal(state.findings@.len())
    }
}

/// The selection part of the status bar.
pub fn status_selection(state: &TuiState) -> (r: String)
    requires
        state.findings@.len() > 0 ==> state.selected < usize::MAX,
    ensures
        r@ == status_selection_text(*state),
{
    if state.findings.len() == 0 {
        "selected: none".to_owned()
    } else {
        let mut out = labelled_number("selected: ", (state.selected + 1) as u64);
        out.append("/");
        push_number(&mut out, state.findings.len() as u64);
        out
    }
}

} // verus!
