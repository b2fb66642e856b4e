use aegis_disk::analysis::duplicate::DuplicateAnalyzer;
use aegis_disk::analysis::insight::{DiskInsight, InsightSeverity};
use aegis_disk::analysis::{
    cleanable_findings, sort_by_size, Analyzer, FileTypeAnalyzer, Finding, FindingKind, InsightAnalyzer,
    LargeFileAnalyzer, ResidueAnalyzer, RiskLevel,
};
use aegis_disk::config::AppConfig;
use aegis_disk::fs::metadata::{FileEntry, ScanReport, ScanStats};

fn file(path: &str, size: u64, depth: usize) -> FileEntry {
    FileEntry::file(path.to_owned(), size, None, depth)
}

fn dir(path: &str, depth: usize) -> FileEntry {
    FileEntry::dir(path.to_owned(), None, depth)
}

fn finding(path: &str, kind: FindingKind, size: u64, risk: RiskLevel) -> Finding {
    Finding { path: path.to_owned(), kind, size, risk, reason: "test".to_owned() }
}

#[test]
fn groups_files_by_extension() {
    let entries = vec![file("src/main.rs", 100, 1), file("src/lib.rs", 50, 1), file("Cargo.toml", 30, 0)];
    let stats = FileTypeAnalyzer::new().analyze(&entries);
    let rust = stats.iter().find(|stat| stat.extension == "rs").unwrap();
    assert_eq!(rust.files, 2);
    assert_eq!(rust.total_size, 150);
}

#[test]
fn handles_files_without_extension() {
    let entries = vec![file("LICENSE", 10, 0)];
    let stats = FileTypeAnalyzer::new().analyze(&entries);
    assert_eq!(stats[0].extension, "[no extension]");
}

#[test]
fn detects_large_files() {
    let entries = vec![file("a.bin", 10, 0)];
    let analyzer = LargeFileAnalyzer::new(5);
    assert_eq!(analyzer.analyze(&entries).len(), 1);
}

#[test]
fn detects_target_directory() {
    let analyzer = ResidueAnalyzer::new(&AppConfig::default());
    let entries = vec![dir("project/target", 1)];
    assert_eq!(analyzer.analyze(&entries).len(), 1);
}

#[test]
fn estimates_residue_directory_size() {
    let analyzer = ResidueAnalyzer::new(&AppConfig::default());
    let entries = vec![
        dir("project/target", 1),
        file("project/target/a.bin", 10, 2),
        file("project/target/nested/b.bin", 15, 3),
        file("project/src/main.rs", 100, 2),
    ];
    let findings = analyzer.analyze(&entries);
    assert_eq!(findings[0].size, 25);
}

#[test]
fn produces_actionable_insights() {
    let report = ScanReport {
        root: "demo".to_owned(),
        entries: Vec::new(),
        stats: ScanStats { files: 1, dirs: 0, total_size: 1000, errors: 0 },
        errors: Vec::new(),
    };
    let findings = vec![finding("demo/target", FindingKind::DevResidue, 500, RiskLevel::Safe)];
    let insights = InsightAnalyzer::new().analyze(&report, &findings);
    assert!(insights.iter().any(|item| item.suggested_command.is_some()));
}

#[test]
fn file_types_order_by_total_and_take_hidden_files_into_account() {
    let entries = vec![
        file("a.txt", 5, 0),
        file("b.BIN", 100, 0),
        file(".hidden", 7, 0),
        file("c.txt", 10, 0),
        dir("d", 0),
    ];
    let all = FileTypeAnalyzer::new().analyze(&entries);
    let labels: Vec<&str> = all.iter().map(|s| s.extension.as_str()).collect();
    assert_eq!(labels, vec!["bin", "txt", "[no extension]"]);
    assert_eq!(all[1].files, 2);
    assert_eq!(all[1].largest_file.as_deref(), Some("c.txt"));
    assert_eq!(all[1].largest_size, 10);
    assert_eq!(all[1].average_size(), 7);
    assert_eq!(all.iter().map(|s| s.files).sum::<usize>(), 4);
    let visible = FileTypeAnalyzer::without_hidden_files().analyze(&entries);
    assert_eq!(visible.len(), 2);
    let top = FileTypeAnalyzer::new().top_n(&entries, 1);
    assert_eq!(top.len(), 1);
    assert_eq!(top[0].extension, "bin");
    assert_eq!(FileTypeAnalyzer::new().top_n(&entries, 2), all[..2].to_vec());
    assert_eq!(FileTypeAnalyzer::new().top_n(&entries, 9), all);
}

#[test]
fn large_files_are_sorted_larger_first_and_reviewed() {
    let entries = vec![file("small", 3, 0), file("a", 10, 0), dir("big-dir", 0), file("b", 20, 0), file("c", 10, 0)];
    let found = LargeFileAnalyzer::new(10).analyze(&entries);
    let paths: Vec<&str> = found.iter().map(|f| f.path.as_str()).collect();
    assert_eq!(paths, vec!["b", "a", "c"]);
    assert!(found.iter().all(|f| f.risk == RiskLevel::Review && f.kind == FindingKind::LargeFile));
    assert_eq!(found[0].reason, "file size is greater than or equal to 10 bytes");
}

#[test]
fn residue_names_rule_and_is_safe() {
    let analyzer = ResidueAnalyzer::new(&AppConfig::default());
    let entries = vec![dir("p/node_modules", 1), file("p/node_modules/x.js", 4, 2), file("p/target", 9, 1)];
    let found = analyzer.analyze(&entries);
    assert_eq!(found.len(), 1);
    assert_eq!(found[0].reason, "matched development residue directory rule: node_modules");
    assert_eq!(found[0].risk, RiskLevel::Safe);
    assert_eq!(found[0].size, 4);
}

#[test]
fn duplicates_group_equal_hashes_and_keep_shortest_path() {
    let entries = vec![
        file("deep/dir/a.txt", 4, 2),
        file("b.txt", 4, 0),
        file("c.txt", 9, 0),
        file("d.txt", 4, 0),
    ];
    let analyzer = DuplicateAnalyzer::new(1);
    let targets = analyzer.hash_targets(&entries);
    assert_eq!(targets, vec![true, true, false, true]);
    let hashes = vec![Some("h1".to_owned()), Some("h1".to_owned()), None, Some("h2".to_owned())];
    let groups = analyzer.groups(&entries, &hashes);
    assert_eq!(groups.len(), 1);
    assert_eq!(groups[0].recommended_keep, "b.txt");
    assert_eq!(groups[0].files, vec!["b.txt".to_owned(), "deep/dir/a.txt".to_owned()]);
    let findings = analyzer.analyze(&entries, &hashes);
    assert_eq!(findings.len(), 2);
    assert_eq!(findings[0].kind, FindingKind::DuplicateCandidate { group_id: 0, keep: true });
    assert_eq!(findings[0].risk, RiskLevel::Review);
    assert_eq!(findings[0].reason, "duplicate group 0, recommended file to keep");
    assert_eq!(findings[1].kind, FindingKind::DuplicateCandidate { group_id: 0, keep: false });
    assert_eq!(findings[1].risk, RiskLevel::Safe);
    assert_eq!(findings[1].reason, "duplicate group 0, same blake3 hash");
}

#[test]
fn duplicates_below_minimum_size_are_ignored() {
    let entries = vec![file("a", 4, 0), file("b", 4, 0)];
    let analyzer = DuplicateAnalyzer::new(5);
    assert_eq!(analyzer.hash_targets(&entries), vec![false, false]);
    let hashes = vec![Some("h".to_owned()), Some("h".to_owned())];
    assert!(analyzer.groups(&entries, &hashes).is_empty());
}

#[test]
fn cleanable_findings_leave_large_kept_and_dangerous_out() {
    let findings = vec![
        finding("large", FindingKind::LargeFile, 10, RiskLevel::Safe),
        finding("residue", FindingKind::DevResidue, 10, RiskLevel::Safe),
        finding("risky", FindingKind::DevResidue, 10, RiskLevel::Review),
        finding("keep", FindingKind::DuplicateCandidate { group_id: 0, keep: true }, 1, RiskLevel::Review),
        finding("copy", FindingKind::DuplicateCandidate { group_id: 0, keep: false }, 1, RiskLevel::Safe),
        finding("danger", FindingKind::DuplicateCandidate { group_id: 1, keep: false }, 1, RiskLevel::Dangerous),
    ];
    let paths: Vec<String> = cleanable_findings(&findings).into_iter().map(|f| f.path).collect();
    assert_eq!(paths, vec!["residue".to_owned(), "copy".to_owned()]);
}

#[test]
fn sort_by_size_is_stable() {
    let findings = vec![
        finding("a", FindingKind::LargeFile, 1, RiskLevel::Review),
        finding("b", FindingKind::LargeFile, 5, RiskLevel::Review),
        finding("c", FindingKind::DevResidue, 1, RiskLevel::Safe),
        finding("d", FindingKind::DevResidue, 5, RiskLevel::Safe),
    ];
    let paths: Vec<String> = sort_by_size(&findings).into_iter().map(|f| f.path).collect();
    assert_eq!(paths, vec!["b", "d", "a", "c"]);
}

#[test]
fn insights_follow_the_documented_order_and_texts() {
    let report = ScanReport {
        root: "demo".to_owned(),
        entries: Vec::new(),
        stats: ScanStats { files: 6, dirs: 5, total_size: 1000, errors: 2 },
        errors: Vec::new(),
    };
    let findings = vec![
        finding("demo/big", FindingKind::LargeFile, 400, RiskLevel::Review),
        finding("demo/target", FindingKind::DevResidue, 200, RiskLevel::Safe),
        finding("demo/b", FindingKind::DuplicateCandidate { group_id: 0, keep: true }, 50, RiskLevel::Review),
        finding("demo/a", FindingKind::DuplicateCandidate { group_id: 0, keep: false }, 50, RiskLevel::Safe),
    ];
    let insights = InsightAnalyzer::new().analyze(&report, &findings);
    assert_eq!(insights.len(), 6);
    assert_eq!(insights[0].severity, InsightSeverity::Warning);
    assert_eq!(
        insights[0].message,
        "The scanner recorded 2 access error(s). Results are still usable, but totals may be incomplete."
    );
    assert_eq!(insights[0].suggested_command.as_deref(), Some("aegis-disk scan demo"));
    assert_eq!(
        insights[1].message,
        "Detected 2 safe item(s), 2 review item(s), and 0 dangerous item(s) under demo."
    );
    assert_eq!(insights[2].severity, InsightSeverity::Warning);
    assert_eq!(
        insights[2].message,
        "Large-file candidates account for about 40.0% of scanned space (400 B)."
    );
    assert_eq!(insights[3].severity, InsightSeverity::Notice);
    assert_eq!(
        insights[3].message,
        "Development residue accounts for about 20.0% of scanned space (200 B). Start with dry-run."
    );
    assert_eq!(insights[3].suggested_command.as_deref(), Some("aegis-disk clean demo --dry-run --target residue"));
    assert_eq!(insights[4].severity, InsightSeverity::Info);
    assert_eq!(
        insights[4].message,
        "Duplicate removal candidates account for about 5.0% of scanned space (50 B)."
    );
    assert_eq!(insights[5].title, "Recommended review order");
    assert_eq!(insights[5].suggested_command.as_deref(), Some("aegis-disk tui demo"));
    assert_eq!(InsightSeverity::Warning.label(), "WARNING");
}

#[test]
fn insights_without_findings() {
    let report = ScanReport::new("root".to_owned(), Vec::new(), Vec::new());
    let insights = InsightAnalyzer::new().analyze(&report, &[]);
    assert_eq!(insights.len(), 4);
    assert_eq!(insights[0].title, "Scan completed without access errors");
    assert_eq!(insights[2].title, "No large-file pressure detected");
    assert_eq!(insights[3].suggested_command.as_deref(), Some("aegis-disk types root"));
    let custom = DiskInsight::new(InsightSeverity::Notice, "t".to_owned(), "m".to_owned(), None);
    assert_eq!(custom.title, "t");
}

#[test]
fn percent_rounds_to_one_decimal() {
    let report = ScanReport {
        root: "r".to_owned(),
        entries: Vec::new(),
        stats: ScanStats { files: 1, dirs: 0, total_size: 3, errors: 0 },
        errors: Vec::new(),
    };
    let findings = vec![finding("r/x", FindingKind::LargeFile, 2, RiskLevel::Review)];
    let insights = InsightAnalyzer::new().analyze(&report, &findings);
    assert_eq!(
        insights[2].message,
        "Large-file candidates account for about 66.7% of scanned space (2 B)."
    );
}

#[test]
fn analyzer_names() {
    assert_eq!(LargeFileAnalyzer::new(1).name(), "large-file");
    assert_eq!(ResidueAnalyzer::new(&AppConfig::default()).name(), "dev-residue");
    assert_eq!(DuplicateAnalyzer::new(1).name(), "duplicate");
    assert_eq!(RiskLevel::Dangerous.label(), "DANGER");
}
