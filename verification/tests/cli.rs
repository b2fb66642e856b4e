use aegis_disk::cli::{clean_mode, is_confirmed, CleanMode, CleanTarget};
use aegis_disk::error::SentinelError;

#[test]
fn clean_needs_exactly_one_mode() {
    assert!(matches!(clean_mode(true, true), Err(SentinelError::ConflictingCleanMode)));
    assert!(matches!(clean_mode(false, false), Err(SentinelError::MissingCleanMode)));
    assert!(matches!(clean_mode(true, false), Ok(CleanMode::DryRun)));
    assert!(matches!(clean_mode(false, true), Ok(CleanMode::Execute)));
}

#[test]
fn clean_targets() {
    assert_eq!(CleanTarget::parse("residue"), Some(CleanTarget::Residue));
    assert_eq!(CleanTarget::parse("duplicates"), Some(CleanTarget::Duplicates));
    assert_eq!(CleanTarget::parse("dups"), Some(CleanTarget::Duplicates));
    assert_eq!(CleanTarget::parse("Residue"), None);
    assert_eq!(CleanTarget::parse("large"), None);
}

#[test]
fn confirmation_is_an_exact_yes() {
    assert!(is_confirmed("YES\n"));
    assert!(is_confirmed("  YES  "));
    assert!(!is_confirmed("yes"));
    assert!(!is_confirmed("Y"));
    assert!(!is_confirmed(""));
}
