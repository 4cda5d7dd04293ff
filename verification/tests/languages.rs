use template_rs::languages::{get_display_name, get_language_map, is_known_language};

#[test]
fn test_aliases() {
    assert_eq!(get_display_name("js"), "JavaScript");
    assert_eq!(get_display_name("javascript"), "JavaScript");
    assert_eq!(get_display_name("node"), "JavaScript");

    assert_eq!(get_display_name("cpp"), "C++");
    assert_eq!(get_display_name("c++"), "C++");

    assert_eq!(get_display_name("py"), "Python");
    assert_eq!(get_display_name("python3"), "Python");
}

#[test]
fn test_case_insensitive() {
    assert_eq!(get_display_name("JavaScript"), "JavaScript");
    assert_eq!(get_display_name("JAVASCRIPT"), "JavaScript");
    assert_eq!(get_display_name("jAvAsCrIpT"), "JavaScript");
}

#[test]
fn test_unknown_language() {
    assert_eq!(get_display_name("unknown-lang"), "unknown-lang");
    assert!(!is_known_language("unknown-lang"));
}

#[test]
fn test_shared_alias_owned_by_later_entry() {
    // "sh" and "bash" are aliases of both Bash and Shell; as in a lookup
    // map filled front to back, the later entry owns them.
    assert_eq!(get_display_name("sh"), "Shell");
    assert_eq!(get_display_name("bash"), "Shell");
    assert_eq!(get_display_name("go"), "Go");
    assert_eq!(get_display_name("golang"), "Go");
}

#[test]
fn test_language_map_shape() {
    let table = get_language_map();
    assert_eq!(table.len(), 48);
    assert!(table.iter().any(|l| l.display_name == "Rust"));
    let rust = table.iter().find(|l| l.display_name == "Rust").unwrap();
    assert_eq!(rust.aliases, vec!["rust", "rs"]);
}
