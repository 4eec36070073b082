use vdi_engine::version::UpdateResult;
use vdi_engine::version::current_version;
use vdi_engine::version::evaluate_release;
use vdi_engine::version::is_newer_version;

#[test]
fn test_is_newer_version() {
    assert!(is_newer_version("1.0.1", "1.0.0"));
    assert!(is_newer_version("1.1.0", "1.0.0"));
    assert!(is_newer_version("2.0.0", "1.0.0"));
    assert!(!is_newer_version("1.0.0", "1.0.0"));
    assert!(!is_newer_version("0.9.0", "1.0.0"));
    assert!(is_newer_version("v0.6.0", "0.5.0"));
}

#[test]
fn test_current_version() {
    let ver = current_version();
    assert!(!ver.is_empty());
}

#[test]
fn test_is_newer_version_partial_components() {
    assert!(is_newer_version("1.1", "1.0.5"));
    assert!(!is_newer_version("1", "1.0.0"));
    assert!(is_newer_version("2", "1.9.9"));
}

#[test]
fn test_evaluate_release_newer() {
    let r = evaluate_release("v1.2.0", Some("notes".to_string()), "1.0.0");
    match r {
        UpdateResult::CheckResult(c) => {
            assert!(c.has_update);
            assert_eq!(c.new_version.as_deref(), Some("1.2.0"));
            assert_eq!(c.release_notes.as_deref(), Some("notes"));
            assert_eq!(c.current_version, "1.0.0");
        },
        _ => panic!("expected a check result"),
    }
}

#[test]
fn test_evaluate_release_up_to_date() {
    let r = evaluate_release("1.0.0", None, "1.0.0");
    match r {
        UpdateResult::CheckResult(c) => {
            assert!(!c.has_update);
            assert!(c.new_version.is_none());
            assert_eq!(c.release_notes.as_deref(), Some(""));
        },
        _ => panic!("expected a check result"),
    }
}
