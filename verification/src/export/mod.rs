//! Reports: a scan, its findings, the file-type distribution and the advice,
//! gathered once and rendered as Markdown or as JSON.
pub mod json;
pub mod markdown;

use vstd::prelude::*;
use crate::analysis::{DiskInsight, FileTypeStat, Finding};
use crate::fs::metadata::ScanReport;
use crate::text::{chars_are, lower, lower_chars, str_chars, trim, trim_chars, trim_end, trim_start};

verus! {

/// Everything a report shows.
#[derive(Debug, Clone)]
pub struct ExportContext {
    pub report: ScanReport,
    pub findings: Vec<Finding>,
    pub file_types: Vec<FileTypeStat>,
    pub insights: Vec<DiskInsight>,
}

impl ExportContext {
    /// A context from its parts.
    pub fn new(
        report: ScanReport,
        findings: Vec<Finding>,
        file_types: Vec<FileTypeStat>,
        insights: Vec<DiskInsight>,
    ) -> (r: Self)
        ensures
            r.report == report,
            r.findings == findings,
            r.file_types == file_types,
            r.insights == insights,
    {
        ExportContext { report, findings, file_types, insights }
    }

    /// The scanned root.
    pub fn root(&self) -> (r: &String)
        ensures
            *r == self.report.root,
    {
        &self.report.root
    }
}

/// The report formats.
#[derive(Debug, Clone, Copy, PartialEq, Eq, Structural)]
pub enum ExportFormat {
    Markdown,
    Json,
}

/// The format a user names: the name is trimmed and read without regard to
/// ASCII case; `md` and `markdown` mean Markdown, `json` means JSON.
pub open spec fn format_named(raw: Seq<char>) -> Option<ExportFormat> {
    let key = lower(trim(raw));
    if key == "md"@ || key == "markdown"@ {
        Some(ExportFormat::Markdown)
    } else if key == "json"@ {
        Some(ExportFormat::Json)
    } else {
        None
    }
}

/// The label of a format.
pub open spec fn format_label(f: ExportFormat) -> Seq<char> {
    match f {
        ExportFormat::Markdown => "markdown"@,
        ExportFormat::Json => "json"@,
    }
}

impl ExportFormat {
    /// The format a user names, if any.
    pub fn parse(raw: &str) -> (r: Option<ExportFormat>)
        ensures
            r == format_named(raw@),
    {
        let chars = str_chars(raw);
        let key = lower_chars(&trim_chars(&chars));
        if chars_are(&key, "md") || chars_are(&key, "markdown") {
            Some(ExportFormat::Markdown)
        } else if chars_are(&key, "json") {
            Some(ExportFormat::Json)
        } else {
            None
        }
    }

    /// The label of this format.
    pub fn label(self) -> (r: &'static str)
        ensures
            r@ == format_label(self),
    {
        match self {
            ExportFormat::Markdown => "markdown",
            ExportFormat::Json => "json",
        }
    }
}

/// A non-empty word of lower-case ASCII letters reads back as itself.
proof fn lemma_plain_word(s: Seq<char>)
    requires
        s.len() > 0,
        forall|i: int| 0 <= i < s.len() ==> 97 <= (#[trigger] s[i] as u32) <= 122,
    ensures
        lower(trim(s)) == s,
{
    assert(97 <= (s[0] as u32) <= 122);
    assert(97 <= (s[s.len() - 1] as u32) <= 122);
    assert(trim_start(s) == s);
    assert(trim_end(s) == s);
    assert(lower(s) =~= s);
}

/// Reading a format's label gives the format back.
pub proof fn lemma_label_parses_back(f: ExportFormat)
    ensures
        format_named(format_label(f)) == Some(f),
{
    reveal_strlit("markdown");
    reveal_strlit("json");
    reveal_strlit("md");
    lemma_plain_word(format_label(f));
}

} // verus!
