use template_rs::errors::TemplateError;
use template_rs::sync::{
    check_target, interpret_outcome, plan, template_config_file, SyncMode, TargetAction,
};

fn mode(dry_run: bool, force: bool, delete: bool) -> SyncMode {
    SyncMode { dry_run, force, delete }
}

fn args_of(dry_run: bool, force: bool, delete: bool) -> Vec<String> {
    plan("/src/tpl", "/dst/proj", mode(dry_run, force, delete)).args
}

#[test]
fn test_plan_program_is_rsync() {
    let spec = plan("/s", "/d", mode(false, false, false));
    assert_eq!(spec.program, "rsync");
}

#[test]
fn test_plan_default_mode() {
    assert_eq!(
        args_of(false, false, false),
        vec!["-rlpv", "--exclude=.template.toml", "--ignore-existing", "/src/tpl/", "/dst/proj"]
    );
}

#[test]
fn test_plan_force() {
    assert_eq!(
        args_of(false, true, false),
        vec!["-rlpv", "--exclude=.template.toml", "/src/tpl/", "/dst/proj"]
    );
}

#[test]
fn test_plan_delete() {
    assert_eq!(
        args_of(false, false, true),
        vec![
            "-rlpv",
            "--exclude=.template.toml",
            "--ignore-existing",
            "--delete",
            "/src/tpl/",
            "/dst/proj"
        ]
    );
}

#[test]
fn test_plan_force_delete() {
    assert_eq!(
        args_of(false, true, true),
        vec!["-rlpv", "--exclude=.template.toml", "--delete", "/src/tpl/", "/dst/proj"]
    );
}

#[test]
fn test_plan_dry_run_combinations() {
    assert_eq!(
        args_of(true, false, false),
        vec![
            "-rlpv",
            "--exclude=.template.toml",
            "--dry-run",
            "--itemize-changes",
            "--ignore-existing",
            "/src/tpl/",
            "/dst/proj"
        ]
    );
    assert_eq!(
        args_of(true, true, true),
        vec![
            "-rlpv",
            "--exclude=.template.toml",
            "--dry-run",
            "--itemize-changes",
            "--delete",
            "/src/tpl/",
            "/dst/proj"
        ]
    );
    assert_eq!(
        args_of(true, true, false),
        vec![
            "-rlpv",
            "--exclude=.template.toml",
            "--dry-run",
            "--itemize-changes",
            "/src/tpl/",
            "/dst/proj"
        ]
    );
    assert_eq!(
        args_of(true, false, true),
        vec![
            "-rlpv",
            "--exclude=.template.toml",
            "--dry-run",
            "--itemize-changes",
            "--ignore-existing",
            "--delete",
            "/src/tpl/",
            "/dst/proj"
        ]
    );
}

#[test]
fn test_sentinel_filename() {
    assert_eq!(template_config_file(), ".template.toml");
}

#[test]
fn test_interpret_success_with_changes() {
    let r = interpret_outcome(true, "copied a\ncopied b\n".to_string(), String::new()).unwrap();
    assert!(r.changed);
    assert_eq!(r.summary, "copied a\ncopied b\n");
}

#[test]
fn test_interpret_success_without_changes() {
    let r = interpret_outcome(true, "  \n".to_string(), String::new()).unwrap();
    assert!(!r.changed);
}

#[test]
fn test_interpret_failure_carries_detail() {
    let r = interpret_outcome(false, String::new(), "boom".to_string());
    match r {
        Err(TemplateError::SyncError(d)) => assert_eq!(d, "boom"),
        _ => panic!("expected a sync error"),
    }
}

#[test]
fn test_check_target_init_requires_existing() {
    assert!(matches!(
        check_target("/t", false, false, false, false),
        Err(TemplateError::NotFoundError(_))
    ));
    assert!(matches!(
        check_target("/t", true, true, false, false),
        Ok(TargetAction::UseExisting)
    ));
}

#[test]
fn test_check_target_new_creates() {
    assert!(matches!(
        check_target("/t", false, false, true, false),
        Ok(TargetAction::CreateFirst)
    ));
    assert!(matches!(
        check_target("/t", false, false, true, true),
        Ok(TargetAction::ReportCreation)
    ));
    assert!(matches!(
        check_target("/t", true, false, true, false),
        Err(TemplateError::InvalidTargetError(_))
    ));
    assert!(matches!(
        check_target("/t", true, true, true, false),
        Ok(TargetAction::UseExisting)
    ));
}
