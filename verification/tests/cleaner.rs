use aegis_disk::analysis::{cleanable_findings, Finding, FindingKind, RiskLevel};
use aegis_disk::cleaner::plan::{CleanAction, CleanPlan};
use aegis_disk::cleaner::trash::{MoveOutcome, TrashCleaner};
use aegis_disk::config::AppConfig;
use aegis_disk::fs::safety::SafetyGuard;

fn residue(path: &str, size: u64) -> Finding {
    Finding {
        path: path.to_owned(),
        kind: FindingKind::DevResidue,
        size,
        risk: RiskLevel::Safe,
        reason: "rule".to_owned(),
    }
}

fn targets(plan: &CleanPlan) -> Vec<String> {
    plan.actions
        .iter()
        .map(|a| match a {
            CleanAction::MoveToTrash { to, .. } => to.clone(),
            CleanAction::SkipProtected { path, .. } => path.clone(),
        })
        .collect()
}

#[test]
fn plan_keeps_paths_relative_to_root() {
    let findings = vec![residue("proj/target", 512), residue("/elsewhere/cache", 3)];
    let plan = CleanPlan::from_findings("proj".to_owned(), &findings, "proj/.aegis_disk_trash".to_owned());
    assert_eq!(plan.estimated_count(), 2);
    assert_eq!(plan.estimated_bytes(), 515);
    assert_eq!(targets(&plan), vec!["proj/.aegis_disk_trash/target".to_owned(), "/elsewhere/cache".to_owned()]);
}

#[test]
fn dry_run_estimates_reclaimable_space_without_moving() {
    let findings = vec![residue("proj/target", 512)];
    let cleanable = cleanable_findings(&findings);
    let plan = CleanPlan::from_findings("proj".to_owned(), &cleanable, "proj/.aegis_disk_trash".to_owned());
    let cleaner = TrashCleaner::new(SafetyGuard::new(&AppConfig::default()));
    let sources = vec!["/home/u/proj/target".to_owned()];
    let summary = cleaner.dry_run(&plan, &sources);
    assert_eq!(plan.estimated_bytes(), 512);
    assert_eq!(summary.reclaimed_bytes, 512);
    assert_eq!(summary.planned, 1);
    assert_eq!(summary.moved, 0);
    assert_eq!(summary.skipped, 0);
    assert_eq!(summary.messages, vec!["DRY-RUN move proj/target -> proj/.aegis_disk_trash/target (512 B)".to_owned()]);
}

#[test]
fn protected_sources_are_skipped() {
    let findings = vec![residue("usr/lib", 10), residue("proj/x", 5)];
    let plan = CleanPlan::from_findings("".to_owned(), &findings, "trash".to_owned());
    let cleaner = TrashCleaner::new(SafetyGuard::new(&AppConfig::default()));
    let sources = vec!["/usr/lib".to_owned(), "/home/u/proj/x".to_owned()];
    assert!(!cleaner.should_move(&plan.actions[0], &sources[0]));
    assert!(cleaner.should_move(&plan.actions[1], &sources[1]));
    let summary = cleaner.dry_run(&plan, &sources);
    assert_eq!(summary.skipped, 1);
    assert_eq!(summary.reclaimed_bytes, 5);
    assert!(summary.reclaimed_bytes <= plan.estimated_bytes());
    assert_eq!(summary.messages[0], "SKIP protected path: usr/lib");
}

#[test]
fn execution_accounts_for_every_action() {
    let findings = vec![residue("a", 10), residue("b", 20), residue("c", 30)];
    let mut plan = CleanPlan::from_findings("".to_owned(), &findings, "t".to_owned());
    plan.actions.push(CleanAction::SkipProtected { path: "d".to_owned(), reason: "kept".to_owned() });
    let cleaner = TrashCleaner::new(SafetyGuard::from_roots(vec!["/sys".to_owned()]));
    let sources = vec!["/x/a".to_owned(), "/sys/b".to_owned(), "/x/c".to_owned(), "/x/d".to_owned()];
    let outcomes = vec![Some(MoveOutcome::Moved(11)), None, Some(MoveOutcome::Failed("busy".to_owned())), None];
    let summary = cleaner.execute(&plan, &sources, &outcomes);
    assert_eq!(cleaner.dry_run(&plan, &sources).skipped, summary.skipped);
    assert_eq!(summary.planned, 4);
    assert_eq!(summary.moved, 1);
    assert_eq!(summary.skipped, 2);
    assert_eq!(summary.failed, 1);
    assert_eq!(summary.reclaimed_bytes, 11);
    assert_eq!(
        summary.messages,
        vec![
            "MOVED a -> t/a".to_owned(),
            "SKIP protected path: b".to_owned(),
            "FAILED c -> t/c: busy".to_owned(),
            "SKIP d: kept".to_owned(),
        ]
    );
}

#[test]
fn plan_keeps_the_remaining_text_of_the_path() {
    let findings = vec![residue("/p/a//b", 1), residue("/p/./x/.", 2), residue("/p//c/", 3)];
    let plan = CleanPlan::from_findings("/p".to_owned(), &findings, "/p/.aegis_disk_trash".to_owned());
    assert_eq!(
        targets(&plan),
        vec![
            "/p/.aegis_disk_trash/a//b".to_owned(),
            "/p/.aegis_disk_trash/x".to_owned(),
            "/p/.aegis_disk_trash/c".to_owned(),
        ]
    );
    let unrooted = CleanPlan::from_findings("".to_owned(), &[residue("a/b/", 1)], "t".to_owned());
    assert_eq!(targets(&unrooted), vec!["t/a/b".to_owned()]);
}
