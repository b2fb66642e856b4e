//! The JSON report as plain records: what each field holds is decided here,
//! and the records are then written out as JSON text by a serializer.
use vstd::prelude::*;
use vstd::string::*;
use crate::analysis::{risk_label, DiskInsight, FileTypeStat, Finding, FindingKind};
use crate::analysis::file_type::opt_view;
use crate::analysis::insight::severity_label;
use crate::export::markdown::average_of;
use crate::export::ExportContext;
use crate::text::{decimal, push_number};

verus! {

/// The scan totals of the report.
#[derive(Debug, Clone)]
pub struct JsonSummary {
    pub files: usize,
    pub dirs: usize,
    pub total_size: u64,
    pub errors: usize,
    pub findings: usize,
}

/// One insight of the report.
#[derive(Debug, Clone)]
pub struct JsonInsight {
    pub severity: String,
    pub title: String,
    pub message: String,
    pub suggested_command: Option<String>,
}

/// One finding of the report.
#[derive(Debug, Clone)]
pub struct JsonFinding {
    pub risk: String,
    pub size: u64,
    pub kind: String,
    pub path: String,
    pub reason: String,
}

/// One file type of the report.
#[derive(Debug, Clone)]
pub struct JsonFileType {
    pub extension: String,
    pub files: usize,
    pub total_size: u64,
    pub average_size: u64,
    pub largest_size: u64,
    pub largest_file: Option<String>,
}

/// The whole JSON report.
#[derive(Debug, Clone)]
pub struct JsonReport {
    pub root: String,
    pub summary: JsonSummary,
    pub insights: Vec<JsonInsight>,
    pub findings: Vec<JsonFinding>,
    pub file_types: Vec<JsonFileType>,
    pub safety_note: String,
}

/// How the JSON report names a finding's kind.
pub open spec fn json_kind_label(k: FindingKind) -> Seq<char> {
    match k {
        FindingKind::LargeFile => "large_file"@,
        FindingKind::DevResidue => "development_residue"@,
        FindingKind::DuplicateCandidate { group_id, keep } => "duplicate_group_"@ + decimal(group_id as nat) + if keep {
            "_keep"@
        } else {
            "_remove"@
        },
    }
}

/// The note closing the JSON report.
pub open spec fn json_safety_note() -> Seq<char> {
    "Run clean --dry-run before executing any cleanup action."@
}

/// `j` records insight `i`.
pub open spec fn records_insight(j: JsonInsight, i: DiskInsight) -> bool {
    &&& j.severity@ == severity_label(i.severity)
    &&& j.title@ == i.title@
    &&& j.message@ == i.message@
    &&& opt_view(j.suggested_command) == opt_view(i.suggested_command)
}

/// `j` records finding `f`.
pub open spec fn records_finding(j: JsonFinding, f: Finding) -> bool {
    &&& j.risk@ == risk_label(f.risk)
    &&& j.size == f.size
    &&& j.kind@ == json_kind_label(f.kind)
    &&& j.path@ == f.path@
    &&& j.reason@ == f.reason@
}

/// `j` records file type `s`.
pub open spec fn records_type(j: JsonFileType, s: FileTypeStat) -> bool {
    &&& j.extension@ == s.extension@
    &&& j.files == s.files
    &&& j.total_size == s.total_size
    &&& j.average_size == average_of(s@)
    &&& j.largest_size == s.largest_size
    &&& opt_view(j.largest_file) == opt_view(s.largest_file)
}

/// An exact copy of an optional string.
fn copy_opt(o: &Option<String>) -> (r: Option<String>)
    ensures
        opt_view(r) == opt_view(*o),
{
    match o {
        Some(s) => Some(s.clone()),
        None => None,
    }
}

/// The JSON name of a finding's kind.
fn kind_label(k: &FindingKind) -> (r: String)
    ensures
        r@ == json_kind_label(*k),
{
    let mut out = String::new();
    match k {
        FindingKind::LargeFile => out.append("large_file"),
        FindingKind::DevResidue => out.append("development_residue"),
        FindingKind::DuplicateCandidate { group_id, keep } => {
            out.append("duplicate_group_");
            push_number(&mut out, *group_id as u64);
            if *keep {
                out.append("_keep");
            } else {
                out.append("_remove");
            }
        },
    }
    out
}

fn json_insight(i: &DiskInsight) -> (r: JsonInsight)
    ensures
        records_insight(r, *i),
{
    JsonInsight {
        severity: i.severity.label().to_owned(),
        title: i.title.clone(),
        message: i.message.clone(),
        suggested_command: copy_opt(&i.suggested_command),
    }
}

fn json_finding(f: &Finding) -> (r: JsonFinding)
    ensures
        records_finding(r, *f),
{
    JsonFinding {
        risk: f.risk.label().to_owned(),
        size: f.size,
        kind: kind_label(&f.kind),
        path: f.path.clone(),
        reason: f.reason.clone(),
    }
}

fn json_file_type(s: &FileTypeStat) -> (r: JsonFileType)
    ensures
        records_type(r, *s),
{
    JsonFileType {
        extension: s.extension.clone(),
        files: s.files,
        total_size: s.total_size,
        average_size: s.average_size(),
        largest_size: s.largest_size,
        largest_file: copy_opt(&s.largest_file),
    }
}

/// The records of a JSON report: the root, the scan totals with the number
/// of findings, every insight, finding and file type in order, and the
/// safety note.
pub fn json_report(context: &ExportContext) -> (r: JsonReport)
    ensures
        r.root@ == context.report.root@,
        r.summary.files == context.report.stats.files,
        r.summary.dirs == context.report.stats.dirs,
        r.summary.total_size == context.report.stats.total_size,
        r.summary.errors == context.report.stats.errors,
        r.summary.findings == context.findings@.len(),
        r.insights@.len() == context.insights@.len(),
        forall|k: int| 0 <= k < r.insights@.len() ==> records_insight(#[trigger] r.insights@[k], context.insights@[k]),
        r.findings@.len() == context.findings@.len(),
        forall|k: int| 0 <= k < r.findings@.len() ==> records_finding(#[trigger] r.findings@[k], context.findings@[k]),
        r.file_types@.len() == context.file_types@.len(),
        forall|k: int|
            0 <= k < r.file_types@.len() ==> records_type(#[trigger] r.file_types@[k], context.file_types@[k]),
        r.safety_note@ == json_safety_note(),
{
    let mut insights: Vec<JsonInsight> = Vec::new();
    let mut i: usize = 0;
    while i < context.insights.len()
        invariant
            i <= context.insights@.len(),
            insights@.len() == i,
            forall|k: int| 0 <= k < i ==> records_insight(#[trigger] insights@[k], context.insights@[k]),
        decreases context.insights.len() - i,
    {
        insights.push(json_insight(&context.insights[i]));
        i = i + 1;
    }
    let mut findings: Vec<JsonFinding> = Vec::new();
    let mut i: usize = 0;
    while i < context.findings.len()
        invariant
            i <= context.findings@.len(),
            findings@.len() == i,
            forall|k: int| 0 <= k < i ==> records_finding(#[trigger] findings@[k], context.findings@[k]),
        decreases context.findings.len() - i,
    {
        findings.push(json_finding(&context.findings[i]));
        i = i + 1;
    }
    let mut types: Vec<JsonFileType> = Vec::new();
    let mut i: usize = 0;
    while i < context.file_types.len()
        invariant
            i <= context.file_types@.len(),
            types@.len() == i,
            forall|k: int| 0 <= k < i ==> records_type(#[trigger] types@[k], context.file_types@[k]),
        decreases context.file_types.len() - i,
    {
        types.push(json_file_type(&context.file_types[i]));
        i = i + 1;
    }
    JsonReport {
        root: context.root().clone(),
        summary: JsonSummary {
            files: context.report.stats.files,
            dirs: context.report.stats.dirs,
            total_size: context.report.stats.total_size,
            errors: context.report.stats.errors,
            findings: context.findings.len(),
        },
        insights,
        findings,
        file_types: types,
        safety_note: "Run clean --dry-run before executing any cleanup action.".to_owned(),
    }
}

} // verus!
