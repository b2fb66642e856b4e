use aegis_disk::analysis::duplicate::DuplicateAnalyzer;
use aegis_disk::analysis::{sort_by_size, Analyzer, FileTypeAnalyzer, InsightAnalyzer, LargeFileAnalyzer, ResidueAnalyzer};
use aegis_disk::config::AppConfig;
use aegis_disk::export::markdown::render_markdown;
use aegis_disk::export::ExportContext;
use aegis_disk::fs::metadata::{FileEntry, ScanReport};
use aegis_disk::utils::format::parse_size;

const DEMO_REPORT: &str = "# AegisDisk Scan Report\n\
\n\
- Root: `demo`\n\
- Format: Markdown\n\
\n\
## 1. Scan Summary\n\
\n\
| Metric | Value |\n\
|---|---:|\n\
| Files | 6 |\n\
| Directories | 5 |\n\
| Total Size | 2.62 MB |\n\
| Access Errors | 0 |\n\
| Findings | 4 |\n\
\n\
## 2. Diagnostic Insights\n\
\n\
### [INFO] Scan completed without access errors\n\
\n\
All accessible entries were scanned successfully.\n\
\n\
### [NOTICE] Finding risk distribution\n\
\n\
Detected 3 safe item(s), 1 review item(s), and 0 dangerous item(s) under demo.\n\
\n\
### [INFO] No large-file pressure detected\n\
\n\
Large files do not dominate this scan result.\n\
\n\
### [NOTICE] Development residue can be cleaned safely first\n\
\n\
Development residue accounts for about 20.0% of scanned space (524.29 kB). Start with dry-run.\n\
\n\
Suggested command:\n\
\n\
```bash\n\
aegis-disk clean demo --dry-run --target residue\n\
```\n\
\n\
### [INFO] Duplicate files may release extra space\n\
\n\
Duplicate removal candidates account for about 0.0% of scanned space (13 B).\n\
\n\
Suggested command:\n\
\n\
```bash\n\
aegis-disk duplicates demo\n\
```\n\
\n\
### [NOTICE] Recommended review order\n\
\n\
Review SAFE residue first, then duplicate candidates, then large files that require manual judgement.\n\
\n\
Suggested command:\n\
\n\
```bash\n\
aegis-disk tui demo\n\
```\n\
\n\
## 3. Findings\n\
\n\
| Risk | Size | Kind | Path | Reason |\n\
|---|---:|---|---|---|\n\
| SAFE | 524.29 kB | dev-residue | `demo/target` | matched development residue directory rule: target |\n\
| REVIEW | 13 B | duplicate-0-keep | `demo/b.txt` | duplicate group 0, recommended file to keep |\n\
| SAFE | 13 B | duplicate-0-remove | `demo/a.txt` | duplicate group 0, same blake3 hash |\n\
| SAFE | 6 B | dev-residue | `demo/node_modules` | matched development residue directory rule: node_modules |\n\
\n\
## 4. File Type Distribution\n\
\n\
| Extension | Files | Total Size | Average Size | Largest File |\n\
|---|---:|---:|---:|---|\n\
| `bin` | 2 | 2.62 MB | 1.31 MB | demo/large.bin |\n\
| `txt` | 2 | 26 B | 13 B | demo/a.txt |\n\
| `rs` | 1 | 13 B | 13 B | demo/src/main.rs |\n\
| `js` | 1 | 6 B | 6 B | demo/node_modules/pkg/index.js |\n\
\n\
## 5. Safety Note\n\
\n\
This report is read-only. Before executing cleanup, run `clean --dry-run` first and review all paths manually.\n\
";

fn file(path: &str, size: u64, depth: usize) -> FileEntry {
    FileEntry::file(path.to_owned(), size, None, depth)
}

fn dir(path: &str, depth: usize) -> FileEntry {
    FileEntry::dir(path.to_owned(), None, depth)
}

#[test]
fn demo_report_renders_as_documented() {
    let entries = vec![
        dir("demo", 0),
        file("demo/b.txt", 13, 1),
        file("demo/a.txt", 13, 1),
        file("demo/large.bin", 2_097_152, 1),
        dir("demo/src", 1),
        file("demo/src/main.rs", 13, 2),
        dir("demo/target", 1),
        file("demo/target/cache.bin", 524_288, 2),
        dir("demo/node_modules", 1),
        dir("demo/node_modules/pkg", 2),
        file("demo/node_modules/pkg/index.js", 6, 3),
    ];
    let report = ScanReport::new("demo".to_owned(), entries, Vec::new());
    let config = AppConfig::default();
    let threshold = parse_size(&config.default_large_file_threshold).unwrap();
    let mut findings = LargeFileAnalyzer::new(threshold).analyze(&report.entries);
    findings.extend(ResidueAnalyzer::new(&config).analyze(&report.entries));
    let duplicates = DuplicateAnalyzer::new(config.duplicate_min_size);
    let hashes: Vec<Option<String>> = report
        .entries
        .iter()
        .map(|e| match e.path.as_str() {
            "demo/a.txt" | "demo/b.txt" => Some("same".to_owned()),
            "demo/src/main.rs" => Some("main".to_owned()),
            _ => None,
        })
        .collect();
    findings.extend(duplicates.analyze(&report.entries, &hashes));
    let findings = sort_by_size(&findings);
    let file_types = FileTypeAnalyzer::new().top_n(&report.entries, 50);
    let insights = InsightAnalyzer::new().analyze(&report, &findings);
    let context = ExportContext::new(report, findings, file_types, insights);
    assert_eq!(render_markdown(&context), DEMO_REPORT);
}
