use rust_semverver::report::{breaking, exit_code, BumpKind, RunConfig, RunOutcome};

#[test]
fn no_change_exits_zero() {
    assert_eq!(exit_code(RunOutcome::Compared(BumpKind::NoChange)), 0);
}

#[test]
fn breaking_change_exits_one() {
    assert_eq!(exit_code(RunOutcome::Compared(BumpKind::Major)), 1);
    assert!(breaking(BumpKind::Major));
}

#[test]
fn compatible_changes_exit_zero() {
    assert_eq!(exit_code(RunOutcome::Compared(BumpKind::Minor)), 0);
    assert_eq!(exit_code(RunOutcome::Compared(BumpKind::Patch)), 0);
    assert!(!breaking(BumpKind::Minor));
}

#[test]
fn failures_exit_one() {
    assert_eq!(exit_code(RunOutcome::NoCratePair), 1);
    assert_eq!(exit_code(RunOutcome::InvalidArguments), 1);
}

#[test]
fn config_from_environment() {
    let c = RunConfig::from_env_values(Some("true".to_string()), Some("TRUE".to_string()), Some("1.0.0".to_string()));
    assert!(c.verbose);
    assert!(!c.api_guidelines);
    assert_eq!(c.version, "1.0.0");
    let d = RunConfig::from_env_values(None, Some("true".to_string()), None);
    assert!(!d.verbose);
    assert!(d.api_guidelines);
    assert_eq!(d.version, "no_version");
}
