use aegis_disk::config::AppConfig;
use aegis_disk::fs::safety::{path_component_names, SafetyGuard};

#[test]
fn exact_protected_root_is_dangerous() {
    let guard = SafetyGuard::new(&AppConfig {
        protected_roots: vec!["/tmp/sentinel-protected".to_owned()],
        ..AppConfig::default()
    });
    assert!(guard.is_dangerous_root("/tmp/sentinel-protected"));
}

#[test]
fn filesystem_root_protects_only_itself() {
    let guard = SafetyGuard::new(&AppConfig::default());
    assert!(guard.is_protected("/"));
    assert!(guard.is_dangerous_root("/"));
    assert!(!guard.is_protected("/home/user/project/target"));
    assert!(!guard.is_dangerous_root("/home/user"));
}

#[test]
fn other_roots_protect_everything_below() {
    let guard = SafetyGuard::new(&AppConfig::default());
    assert!(guard.is_protected("/usr/lib/x"));
    assert!(guard.is_protected("/etc/"));
    assert!(!guard.is_protected("/usrlocal"));
    assert!(!guard.is_dangerous_root("/usr/lib"));
    assert!(guard.is_dangerous_root("/usr/"));
}

#[test]
fn custom_roots() {
    let guard = SafetyGuard::from_roots(vec!["data/keep".to_owned()]);
    assert!(guard.is_protected("data/keep/file"));
    assert!(!guard.is_protected("./data/keep"));
    assert!(!guard.is_protected("data/other"));
}

#[test]
fn component_names() {
    assert_eq!(path_component_names("/a//b/./c"), vec!["/", "a", "b", "c"]);
    assert_eq!(path_component_names("./x/y"), vec![".", "x", "y"]);
    assert!(path_component_names("").is_empty());
}
