use template_rs::authoring::{author_plan, default_template_config};
use template_rs::commands::{handle_command, CommandPlan, Commands};
use template_rs::errors::TemplateError;
use template_rs::sync::SyncMode;

#[test]
fn test_default_template_config() {
    let c = default_template_config("mytpl");
    assert_eq!(c.name.as_deref(), Some("mytpl"));
    assert_eq!(c.language, None);
    assert_eq!(c.description.as_deref(), Some("A template for mytpl"));
    assert_eq!(c.author.as_deref(), Some("Your Name"));
    assert_eq!(c.version.as_deref(), Some("1.0.0"));
    assert_eq!(c.tags.as_deref(), Some(&["project".to_string(), "template".to_string()][..]));
    assert_eq!(c.min_tool_version.as_deref(), Some("0.1.0"));
}

#[test]
fn test_author_plan_already_exists() {
    // authoring where a descriptor already sits fails before any write
    let r = author_plan("/p/tpl", None, true, true, true);
    assert!(matches!(r, Err(TemplateError::AlreadyExistsError(d)) if d == "/p/tpl"));
}

#[test]
fn test_author_plan_infers_name_from_path() {
    let plan = author_plan("/p/mytpl", None, false, false, false).unwrap();
    assert!(plan.create_dir);
    assert_eq!(plan.config_path, "/p/mytpl/.template.toml");
    assert_eq!(plan.config.name.as_deref(), Some("mytpl"));
    assert_eq!(plan.config.description.as_deref(), Some("A template for mytpl"));
}

#[test]
fn test_author_plan_explicit_name() {
    let plan = author_plan("/p/dir", Some("given"), true, true, false).unwrap();
    assert!(!plan.create_dir);
    assert_eq!(plan.config.name.as_deref(), Some("given"));
}

#[test]
fn test_author_plan_trailing_slash_name() {
    let plan = author_plan("/p/mytpl//", None, false, false, false).unwrap();
    assert_eq!(plan.config.name.as_deref(), Some("mytpl"));
}

#[test]
fn test_author_plan_rejects_non_directory() {
    let r = author_plan("/p/file", None, true, false, false);
    assert!(matches!(r, Err(TemplateError::InvalidTargetError(_))));
}

#[test]
fn test_author_plan_rejects_undeterminable_name() {
    let r = author_plan("/", None, false, false, false);
    assert!(matches!(r, Err(TemplateError::InvalidTargetError(_))));
    let r = author_plan("/p/..", None, false, false, false);
    assert!(matches!(r, Err(TemplateError::InvalidTargetError(_))));
}

#[test]
fn test_handle_command_author_and_list() {
    let plan = handle_command(Commands::Author { path: "p".to_string(), name: None });
    assert!(matches!(plan, CommandPlan::Author { path, name: None } if path == "p"));

    let plan = handle_command(Commands::List { verbose: true, language: Some("rust".to_string()) });
    assert!(
        matches!(plan, CommandPlan::List { verbose: true, language: Some(l) } if l == "rust")
    );
}

#[test]
fn test_handle_command_init_and_new() {
    let plan = handle_command(Commands::Init {
        template: "t".to_string(),
        path: None,
        dry_run: true,
        force: false,
        delete: true,
    });
    match plan {
        CommandPlan::Sync { template, path, mode, create_dir } => {
            assert_eq!(template, "t");
            assert_eq!(path, None);
            assert_eq!(mode, SyncMode { dry_run: true, force: false, delete: true });
            assert!(!create_dir);
        }
        _ => panic!("expected a sync plan"),
    }

    let plan = handle_command(Commands::New {
        template: "t".to_string(),
        path: "p".to_string(),
        dry_run: false,
        force: true,
        delete: false,
    });
    match plan {
        CommandPlan::Sync { template, path, mode, create_dir } => {
            assert_eq!(template, "t");
            assert_eq!(path.as_deref(), Some("p"));
            assert_eq!(mode, SyncMode { dry_run: false, force: true, delete: false });
            assert!(create_dir);
        }
        _ => panic!("expected a sync plan"),
    }
}

#[test]
fn test_error_details() {
    assert_eq!(TemplateError::IoError("io".to_string()).detail(), "io");
    assert_eq!(TemplateError::CodecError("bad toml".to_string()).detail(), "bad toml");
    assert_eq!(TemplateError::NotFoundError("t".to_string()).detail(), "t");
    assert_eq!(TemplateError::ExpansionError("v".to_string()).detail(), "v");
}
