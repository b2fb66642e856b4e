use aegis_disk::config::AppConfig;
use aegis_disk::fs::metadata::{largest_entries, FileEntry, ScanReport};
use aegis_disk::fs::scanner::{scan_report, ScanItem, Scanner};

#[test]
fn report_counts_files_dirs_and_bytes() {
    let entries = vec![
        FileEntry::dir("r".to_owned(), None, 0),
        FileEntry::file("r/a".to_owned(), 10, None, 1),
        FileEntry::file("r/b".to_owned(), 5, None, 1),
    ];
    let report = ScanReport::new("r".to_owned(), entries, vec!["e".to_owned()]);
    assert_eq!(report.stats.files, 2);
    assert_eq!(report.stats.dirs, 1);
    assert_eq!(report.stats.total_size, 15);
    assert_eq!(report.stats.errors, 1);
    assert!(report.entries[1].is_file());
}

#[test]
fn total_size_saturates() {
    let entries = vec![
        FileEntry::file("a".to_owned(), u64::MAX, None, 0),
        FileEntry::file("b".to_owned(), 1, None, 0),
    ];
    assert_eq!(ScanReport::new("r".to_owned(), entries, Vec::new()).stats.total_size, u64::MAX);
}

#[test]
fn walked_items_become_entries_and_errors() {
    let items = vec![
        ScanItem::Found { path: "r".to_owned(), depth: 0, is_dir: true, is_file: false, size: 4096, modified: None },
        ScanItem::Found { path: "r/a".to_owned(), depth: 1, is_dir: false, is_file: true, size: 7, modified: None },
        ScanItem::Found { path: "r/link".to_owned(), depth: 1, is_dir: false, is_file: false, size: 3, modified: None },
        ScanItem::MetadataFailed { path: "r/x".to_owned(), message: "denied".to_owned() },
        ScanItem::Failed { message: "loop".to_owned() },
    ];
    let report = scan_report("r".to_owned(), items);
    assert_eq!(report.entries.len(), 2);
    assert_eq!(report.entries[0].size, 0);
    assert_eq!(report.stats.files, 1);
    assert_eq!(report.stats.dirs, 1);
    assert_eq!(report.stats.total_size, 7);
    assert_eq!(report.errors, vec!["metadata failed for r/x: denied".to_owned(), "loop".to_owned()]);
    assert_eq!(report.stats.errors, 2);
}

#[test]
fn scanner_skips_ignored_names() {
    let scanner = Scanner::new(AppConfig::default());
    assert!(scanner.is_ignored(".git"));
    assert!(scanner.is_ignored(".aegis_disk_trash"));
    assert!(!scanner.is_ignored("src"));
    assert_eq!(scanner.max_depth(), None);
}

#[test]
fn largest_entries_first() {
    let entries = vec![
        FileEntry::file("a".to_owned(), 1, None, 0),
        FileEntry::file("b".to_owned(), 9, None, 0),
        FileEntry::dir("c".to_owned(), None, 0),
        FileEntry::file("d".to_owned(), 9, None, 0),
    ];
    assert_eq!(largest_entries(&entries, 3), vec![1, 3, 0]);
    assert_eq!(largest_entries(&entries, 10), vec![1, 3, 0, 2]);
}
