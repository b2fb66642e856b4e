use aegis_disk::analysis::{Finding, FindingKind, RiskLevel};
use aegis_disk::fs::metadata::ScanReport;
use aegis_disk::tui::input::{key_action, Action, Key};
use aegis_disk::tui::state::{FocusPanel, RiskFilter, SortMode, TuiState};
use aegis_disk::tui::view::{block_title, detail_lines, finding_lines, focus_label, overview_lines, status_selection};

fn finding(path: &str, kind: FindingKind, size: u64, risk: RiskLevel) -> Finding {
    Finding { path: path.to_owned(), kind, size, risk, reason: "why".to_owned() }
}

fn state() -> TuiState {
    let report = ScanReport::new("demo".to_owned(), Vec::new(), Vec::new());
    let findings = vec![
        finding("demo/a", FindingKind::LargeFile, 100, RiskLevel::Review),
        finding("demo/target", FindingKind::DevResidue, 300, RiskLevel::Safe),
        finding("demo/c", FindingKind::DuplicateCandidate { group_id: 2, keep: false }, 5, RiskLevel::Safe),
        finding("demo/d", FindingKind::DevResidue, 7, RiskLevel::Dangerous),
    ];
    TuiState::new(report, findings)
}

#[test]
fn new_state_shows_everything_largest_first() {
    let s = state();
    assert_eq!(s.focus, FocusPanel::Overview);
    assert_eq!(s.filter, RiskFilter::All);
    assert_eq!(s.sort, SortMode::SizeDesc);
    assert_eq!(s.visible_len(), 4);
    let paths: Vec<&str> = s.visible_findings().iter().map(|f| f.path.as_str()).collect();
    assert_eq!(paths, vec!["demo/target", "demo/a", "demo/d", "demo/c"]);
    assert_eq!(s.selected_finding().unwrap().path, "demo/target");
    assert_eq!(s.selected_position_label(), "1/4");
}

#[test]
fn navigation_stays_in_bounds() {
    let mut s = state();
    s.previous();
    assert_eq!(s.selected, 0);
    s.last();
    assert_eq!(s.selected, 3);
    s.next();
    assert_eq!(s.selected, 3);
    s.first();
    s.next();
    assert_eq!(s.selected, 1);
}

#[test]
fn filters_sorts_and_panels_cycle() {
    let mut s = state();
    s.next_filter();
    assert_eq!(s.filter, RiskFilter::Safe);
    assert_eq!(s.visible_len(), 2);
    assert_eq!(s.filter.label(), "SAFE");
    s.next_filter();
    s.next_filter();
    assert_eq!(s.filter, RiskFilter::Dangerous);
    assert_eq!(s.visible_len(), 1);
    s.next_filter();
    assert_eq!(s.filter, RiskFilter::All);
    s.next_sort();
    assert_eq!(s.sort, SortMode::RiskDesc);
    assert_eq!(s.visible_findings()[0].path, "demo/d");
    s.next_sort();
    assert_eq!(s.sort.label(), "KIND ASC");
    assert_eq!(s.visible_findings()[0].path, "demo/a");
    s.next_sort();
    assert_eq!(s.visible_findings()[0].path, "demo/a");
    assert_eq!(s.visible_findings()[3].path, "demo/target");
    s.reset_view();
    assert_eq!(s.sort, SortMode::SizeDesc);
    s.next_panel();
    assert_eq!(s.focus, FocusPanel::Findings);
    s.previous_panel();
    assert_eq!(s.focus, FocusPanel::Overview);
    s.previous_panel();
    assert_eq!(s.focus, FocusPanel::Details);
}

#[test]
fn summaries() {
    let s = state();
    let risk = s.risk_summary();
    assert_eq!((risk.safe, risk.review, risk.dangerous), (2, 1, 1));
    assert_eq!(risk.total(), 4);
    let size = s.size_summary();
    assert_eq!(size.safe_bytes, 305);
    assert_eq!(size.total(), 412);
    assert_eq!(s.reclaimable_estimate(), 305);
    assert_eq!(s.largest_finding().unwrap().path, "demo/target");
}

#[test]
fn keys_map_to_actions() {
    assert_eq!(key_action(Key::Char('q'), false), Action::Quit);
    assert_eq!(key_action(Key::Esc, false), Action::Quit);
    assert_eq!(key_action(Key::Char('c'), true), Action::Quit);
    assert_eq!(key_action(Key::Char('c'), false), Action::Ignore);
    assert_eq!(key_action(Key::Char('J'), false), Action::Next);
    assert_eq!(key_action(Key::Up, false), Action::Previous);
    assert_eq!(key_action(Key::Home, false), Action::First);
    assert_eq!(key_action(Key::End, false), Action::Last);
    assert_eq!(key_action(Key::Char('f'), false), Action::NextFilter);
    assert_eq!(key_action(Key::Char('S'), false), Action::NextSort);
    assert_eq!(key_action(Key::Char('r'), false), Action::ResetView);
    assert_eq!(key_action(Key::Left, false), Action::PreviousPanel);
    assert_eq!(key_action(Key::Char(' '), false), Action::NextPanel);
    assert_eq!(key_action(Key::Enter, false), Action::NextPanel);
    assert_eq!(key_action(Key::Other, true), Action::Ignore);
}

#[test]
fn actions_change_the_state() {
    let mut s = state();
    assert!(s.apply(Action::Next));
    assert_eq!(s.selected, 1);
    assert!(s.apply(Action::NextPanel));
    assert_eq!(s.focus, FocusPanel::Findings);
    assert!(s.apply(Action::NextFilter));
    assert_eq!(s.selected, 0);
    assert!(s.apply(Action::Ignore));
    assert!(!s.apply(Action::Quit));
}

#[test]
fn panel_texts() {
    let s = state();
    let overview = overview_lines(&s);
    assert_eq!(overview[0], "AegisDisk");
    assert_eq!(overview[2], "Root: demo");
    assert_eq!(overview[5], "Total: 0 B");
    assert_eq!(overview.len(), 12);
    let list = finding_lines(&s);
    assert_eq!(list.len(), 4);
    assert_eq!(list[0], "> SAFE          300 B dev-residue");
    assert_eq!(list[1], "  REVIEW        100 B large-file");
    assert_eq!(list[3], "  SAFE            5 B dup-2-remove");
    let details = detail_lines(&s);
    assert_eq!(details[0], "Selected: 1/4");
    assert_eq!(details[2], "Kind: dev-residue");
    assert_eq!(details[6], "demo/target");
    assert_eq!(details[11], "Use CLI clean --dry-run first.");
    assert_eq!(status_selection(&s), "selected: 1/4");
    assert_eq!(focus_label(FocusPanel::Details), "Details");
    assert_eq!(block_title("Overview", true), "* Overview *");
    assert_eq!(block_title("Overview", false), "Overview");
}

#[test]
fn empty_state_texts() {
    let s = TuiState::new(ScanReport::new("r".to_owned(), Vec::new(), Vec::new()), Vec::new());
    assert_eq!(finding_lines(&s), vec!["No findings. Try: cargo run -- tui demo".to_owned()]);
    assert_eq!(detail_lines(&s)[0], "No finding selected.");
    assert_eq!(status_selection(&s), "selected: none");
    assert_eq!(s.selected_position_label(), "none");
    assert!(s.largest_finding().is_none());
}

#[test]
fn list_marks_the_finding_the_details_show() {
    let report = ScanReport::new("r".to_owned(), Vec::new(), Vec::new());
    let findings = vec![
        finding("r/small", FindingKind::LargeFile, 1, RiskLevel::Review),
        finding("r/big", FindingKind::LargeFile, 5, RiskLevel::Review),
    ];
    let mut s = TuiState::new(report, findings);
    let list = finding_lines(&s);
    assert!(list[0].starts_with('>'));
    assert!(list[0].ends_with("5 B large-file"));
    assert_eq!(s.selected_finding().unwrap().path, "r/big");
    s.next();
    let list = finding_lines(&s);
    assert!(!list[0].starts_with('>'));
    assert!(list[1].starts_with('>'));
    assert!(list[1].ends_with("1 B large-file"));
    assert_eq!(s.selected_finding().unwrap().path, "r/small");
    assert_eq!(detail_lines(&s)[6], "r/small");
}

#[test]
fn filtered_out_list_shows_the_hint() {
    let report = ScanReport::new("r".to_owned(), Vec::new(), Vec::new());
    let mut s = TuiState::new(report, vec![finding("r/a", FindingKind::LargeFile, 1, RiskLevel::Review)]);
    s.next_filter();
    assert_eq!(s.visible_len(), 0);
    assert_eq!(finding_lines(&s), vec!["No findings. Try: cargo run -- tui demo".to_owned()]);
    s.next();
    assert_eq!(s.selected, 0);
}

#[test]
fn four_filters_and_resets_restore_the_list() {
    let mut s = state();
    s.next_sort();
    let before: Vec<String> = s.visible_findings().iter().map(|f| f.path.clone()).collect();
    for _ in 0..4 {
        s.next_filter();
    }
    let after: Vec<String> = s.visible_findings().iter().map(|f| f.path.clone()).collect();
    assert_eq!(before, after);
    s.reset_view();
    let once: Vec<String> = s.visible_findings().iter().map(|f| f.path.clone()).collect();
    s.reset_view();
    let twice: Vec<String> = s.visible_findings().iter().map(|f| f.path.clone()).collect();
    let fresh: Vec<String> = state().visible_findings().iter().map(|f| f.path.clone()).collect();
    assert_eq!(once, twice);
    assert_eq!(once, fresh);
}
