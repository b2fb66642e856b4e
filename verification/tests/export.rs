use aegis_disk::analysis::file_type::FileTypeStat;
use aegis_disk::analysis::insight::{DiskInsight, InsightSeverity};
use aegis_disk::analysis::{Finding, FindingKind, RiskLevel};
use aegis_disk::export::json::json_report;
use aegis_disk::export::markdown::render_markdown;
use aegis_disk::export::{ExportContext, ExportFormat};
use aegis_disk::fs::metadata::{ScanReport, ScanStats};

fn context(findings: Vec<Finding>) -> ExportContext {
    let report = ScanReport {
        root: "demo".to_owned(),
        entries: Vec::new(),
        stats: ScanStats { files: 6, dirs: 5, total_size: 999, errors: 0 },
        errors: Vec::new(),
    };
    let types = vec![FileTypeStat {
        extension: "b|n".to_owned(),
        files: 2,
        total_size: 30,
        largest_file: Some("demo/x\nb.bin".to_owned()),
        largest_size: 20,
    }];
    let insights = vec![DiskInsight::new(
        InsightSeverity::Notice,
        "Title".to_owned(),
        "Message".to_owned(),
        Some("aegis-disk tui demo".to_owned()),
    )];
    ExportContext::new(report, findings, types, insights)
}

#[test]
fn format_names() {
    assert_eq!(ExportFormat::parse("md"), Some(ExportFormat::Markdown));
    assert_eq!(ExportFormat::parse("  MarkDown "), Some(ExportFormat::Markdown));
    assert_eq!(ExportFormat::parse("JSON"), Some(ExportFormat::Json));
    assert_eq!(ExportFormat::parse("html"), None);
    for f in [ExportFormat::Markdown, ExportFormat::Json] {
        assert_eq!(ExportFormat::parse(f.label()), Some(f));
    }
    assert_eq!(ExportFormat::Json.label(), "json");
}

#[test]
fn markdown_report_sections() {
    let findings = vec![Finding {
        path: "demo/a|b".to_owned(),
        kind: FindingKind::DuplicateCandidate { group_id: 3, keep: false },
        size: 13,
        risk: RiskLevel::Safe,
        reason: "same".to_owned(),
    }];
    let ctx = context(findings);
    assert_eq!(ctx.root(), "demo");
    let md = render_markdown(&ctx);
    assert!(md.starts_with("# AegisDisk Scan Report\n\n- Root: `demo`\n- Format: Markdown\n\n## 1. Scan Summary\n\n"));
    assert!(md.contains("| Files | 6 |\n| Directories | 5 |\n| Total Size | 999 B |\n| Access Errors | 0 |\n| Findings | 1 |\n\n"));
    assert!(md.contains("### [NOTICE] Title\n\nMessage\n\nSuggested command:\n\n```bash\naegis-disk tui demo\n```\n\n"));
    assert!(md.contains("| SAFE | 13 B | duplicate-3-remove | `demo/a\\|b` | same |\n"));
    assert!(md.contains("| `b\\|n` | 2 | 30 B | 15 B | demo/x b.bin |\n"));
    assert!(md.ends_with(
        "## 5. Safety Note\n\nThis report is read-only. Before executing cleanup, run `clean --dry-run` first and review all paths manually.\n"
    ));
}

#[test]
fn markdown_lists_at_most_one_hundred_findings() {
    let findings: Vec<Finding> = (0..101)
        .map(|i| Finding {
            path: format!("f{i}"),
            kind: FindingKind::LargeFile,
            size: 1,
            risk: RiskLevel::Review,
            reason: "r".to_owned(),
        })
        .collect();
    let md = render_markdown(&context(findings));
    assert!(md.contains("| REVIEW | 1 B | large-file | `f99` | r |\n"));
    assert!(!md.contains("`f100`"));
    assert!(md.contains("\nOnly the first 100 findings are listed. Total findings: 101.\n"));
}

#[test]
fn markdown_without_content() {
    let report = ScanReport::new("r".to_owned(), Vec::new(), Vec::new());
    let md = render_markdown(&ExportContext::new(report, Vec::new(), Vec::new(), Vec::new()));
    assert!(md.contains("No diagnostic insight was generated.\n\n"));
    assert!(md.contains("No findings were detected by the enabled analyzers.\n\n"));
    assert!(md.contains("No file type statistics were generated.\n\n"));
}

#[test]
fn json_records() {
    let findings = vec![
        Finding {
            path: "demo/target".to_owned(),
            kind: FindingKind::DevResidue,
            size: 10,
            risk: RiskLevel::Safe,
            reason: "rule".to_owned(),
        },
        Finding {
            path: "demo/b".to_owned(),
            kind: FindingKind::DuplicateCandidate { group_id: 0, keep: true },
            size: 4,
            risk: RiskLevel::Review,
            reason: "keep".to_owned(),
        },
    ];
    let report = json_report(&context(findings));
    assert_eq!(report.root, "demo");
    assert_eq!(report.summary.findings, 2);
    assert_eq!(report.summary.dirs, 5);
    assert_eq!(report.findings[0].kind, "development_residue");
    assert_eq!(report.findings[0].risk, "SAFE");
    assert_eq!(report.findings[1].kind, "duplicate_group_0_keep");
    assert_eq!(report.insights[0].severity, "NOTICE");
    assert_eq!(report.file_types[0].average_size, 15);
    assert_eq!(report.file_types[0].largest_file.as_deref(), Some("demo/x\nb.bin"));
    assert_eq!(report.safety_note, "Run clean --dry-run before executing any cleanup action.");
}
