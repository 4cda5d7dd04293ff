use template_rs::errors::TemplateError;
use template_rs::paths::{
    is_absolute, join_path, persistent_storage, resolve_expanded, resolve_path, template_storage,
};

#[test]
fn test_current_directory() {
    let result = resolve_path(".", None).unwrap();
    assert!(is_absolute(&result) || result == ".");
}

#[test]
fn test_absolute_path() {
    let result = resolve_path("/home/user/file.txt", None).unwrap();
    assert_eq!(result, "/home/user/file.txt");
}

#[test]
fn test_home_expansion() {
    let result = resolve_path("~", None);
    assert!(result.is_ok());

    let result = resolve_path("~/Documents", None);
    assert!(result.is_ok());
    if let Ok(path) = result {
        assert!(path.contains("Documents"));
    }
}

#[test]
fn test_tilde_actually_expands() {
    // with a home directory available, the leading tilde is replaced
    let result = resolve_path("~/Documents", None).unwrap();
    assert!(!result.starts_with('~'));
    assert!(is_absolute(&result));
}

#[test]
fn test_relative_path() {
    let base = "/some/base/dir";
    let result = resolve_path("../config.toml", Some(base)).unwrap();
    assert_eq!(result, "/some/base/dir/../config.toml");
}

#[test]
fn test_dot_slash_prefix() {
    let base = "/some/base/dir";
    let result = resolve_path("./file.txt", Some(base)).unwrap();
    assert_eq!(result, "/some/base/dir/file.txt");
}

#[test]
fn test_trimmed_dot_resolves_to_base() {
    let result = resolve_path("  .  ", Some("/given/base")).unwrap();
    assert_eq!(result, "/given/base");
}

#[test]
fn test_dot_without_base_stays_unresolved() {
    let result = resolve_path(".", None).unwrap();
    assert!(is_absolute(&result) || result == ".");
}

#[test]
fn test_unexpandable_tilde_is_error() {
    // the `~user` form is not supported by the expansion: the tilde stays
    // in place, which the resolver reports instead of joining it verbatim
    let result = resolve_path("~someotheruser/dir", None);
    assert!(matches!(result, Err(TemplateError::ExpansionError(_))));
}

#[test]
fn test_undefined_variable_is_expansion_error() {
    let result = resolve_path("$TEMPLATE_RS_SURELY_UNSET_VARIABLE_1987/x", None);
    assert!(matches!(result, Err(TemplateError::ExpansionError(_))));
}

#[test]
fn test_join_with_absolute_rest_replaces_base() {
    assert_eq!(join_path("/base", "/abs/p"), "/abs/p");
    assert_eq!(join_path("/base/", "x"), "/base/x");
    assert_eq!(join_path("", "x"), "x");
    assert_eq!(join_path("/base", "x"), "/base/x");
}

#[test]
fn test_resolve_expanded_strips_dot_prefix() {
    assert_eq!(resolve_expanded("./x/y", "/b"), "/b/x/y");
    assert_eq!(resolve_expanded(".\\x", "/b"), "/b/x");
    assert_eq!(resolve_expanded("/abs", "/b"), "/abs");
    assert_eq!(resolve_expanded("rel", "/b"), "/b/rel");
}

#[test]
fn test_storage_locations() {
    assert_eq!(persistent_storage(), "~/.template-rs");
    assert_eq!(template_storage(), "~/.template-rs/templates");
}
