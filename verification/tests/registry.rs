use template_rs::templates::{
    check_for_unrecognized, filter_by_language, group_by_language, ConfigFile, DirNode, Template,
    TemplateConfig,
};

fn empty_config() -> TemplateConfig {
    TemplateConfig {
        name: None,
        language: None,
        description: None,
        author: None,
        version: None,
        tags: None,
        min_tool_version: None,
    }
}

fn named_config(name: &str, language: Option<&str>) -> TemplateConfig {
    TemplateConfig {
        name: Some(name.to_string()),
        language: language.map(|l| l.to_string()),
        description: None,
        author: None,
        version: None,
        tags: None,
        min_tool_version: None,
    }
}

fn dir(name: &str, config: ConfigFile, subdirs: Vec<DirNode>) -> DirNode {
    DirNode { name: name.to_string(), config, subdirs }
}

fn sample_tree() -> DirNode {
    dir(
        "templates",
        ConfigFile::Absent,
        vec![
            dir(
                "webapp",
                ConfigFile::Parsed(named_config("frontend", Some("js"))),
                // a template directory is terminal: this nested template
                // must not be discovered
                vec![dir("inner", ConfigFile::Parsed(empty_config()), vec![])],
            ),
            dir(
                "rust",
                ConfigFile::Absent,
                vec![
                    dir("lib", ConfigFile::Parsed(empty_config()), vec![]),
                    dir("cli", ConfigFile::Parsed(named_config("cli", Some("rust"))), vec![]),
                ],
            ),
            dir("broken", ConfigFile::Invalid, vec![]),
            dir("notes", ConfigFile::Absent, vec![]),
            dir(
                "deep",
                ConfigFile::Absent,
                vec![dir(
                    "a",
                    ConfigFile::Absent,
                    vec![dir("b", ConfigFile::Parsed(empty_config()), vec![])],
                )],
            ),
        ],
    )
}

#[test]
fn test_discover_sorted_by_identity() {
    let templates = Template::discover_all(sample_tree(), "/root/templates");
    let names: Vec<&str> = templates.iter().map(|t| t.name.as_str()).collect();
    assert_eq!(names, vec!["deep/a/b", "rust/cli", "rust/lib", "webapp"]);
    let cli = &templates[1];
    assert_eq!(cli.path, "/root/templates/rust/cli");
    assert_eq!(cli.display_name(), "cli");
    assert_eq!(cli.language(), Some("rust"));
}

#[test]
fn test_discover_skips_invalid_and_stops_at_templates() {
    let templates = Template::discover_all(sample_tree(), "/root/templates");
    assert!(templates.iter().all(|t| t.name != "broken"));
    assert!(templates.iter().all(|t| t.name != "webapp/inner"));
    assert!(templates.iter().all(|t| t.name != "notes"));
}

#[test]
fn test_discover_is_stable() {
    let once = Template::discover_all(sample_tree(), "/root/templates");
    let again = Template::discover_all(sample_tree(), "/root/templates");
    let a: Vec<&str> = once.iter().map(|t| t.name.as_str()).collect();
    let b: Vec<&str> = again.iter().map(|t| t.name.as_str()).collect();
    assert_eq!(a, b);
}

#[test]
fn test_discover_empty_root() {
    let root = dir("templates", ConfigFile::Absent, vec![]);
    let templates = Template::discover_all(root, "/root/templates");
    assert!(templates.is_empty());
    let filtered = filter_by_language(templates, Some("rust"));
    assert!(filtered.is_empty());
    let grouped = group_by_language(filtered);
    assert!(grouped.is_empty());
}

fn two_templates() -> Vec<Template> {
    // identity "a/b" with an empty descriptor, and identity "c/d" whose
    // descriptor name is "a/b"
    let root = dir(
        "templates",
        ConfigFile::Absent,
        vec![
            dir("a", ConfigFile::Absent, vec![dir("b", ConfigFile::Parsed(empty_config()), vec![])]),
            dir(
                "c",
                ConfigFile::Absent,
                vec![dir("d", ConfigFile::Parsed(named_config("a/b", None)), vec![])],
            ),
        ],
    );
    Template::discover_all(root, "/r")
}

#[test]
fn test_find_identity_match_wins() {
    let templates = two_templates();
    assert_eq!(templates.len(), 2);
    let found = Template::find(&templates, "a/b").unwrap();
    assert_eq!(templates[found].name, "a/b");
    assert_eq!(templates[found].path, "/r/a/b");
}

#[test]
fn test_find_by_descriptor_name() {
    let root = dir(
        "templates",
        ConfigFile::Absent,
        vec![dir("dir-name", ConfigFile::Parsed(named_config("fancy", None)), vec![])],
    );
    let templates = Template::discover_all(root, "/r");
    let found = Template::find(&templates, "fancy").unwrap();
    assert_eq!(templates[found].name, "dir-name");
    assert_eq!(templates[found].display_name(), "fancy");
}

#[test]
fn test_find_normalizes_backslashes() {
    let templates = two_templates();
    let found = Template::find(&templates, "a\\b").unwrap();
    assert_eq!(templates[found].name, "a/b");
}

#[test]
fn test_find_none_for_unmatched() {
    let templates = two_templates();
    assert!(Template::find(&templates, "nope").is_none());
}

fn tagged(identity: &str, language: Option<&str>) -> Template {
    Template {
        name: identity.to_string(),
        path: format!("/r/{identity}"),
        config: named_config(identity, language),
    }
}

#[test]
fn test_filter_by_language_aliases() {
    let templates = vec![
        tagged("one", Some("js")),
        tagged("two", Some("javascript")),
        tagged("three", Some("Go")),
    ];
    let filtered = filter_by_language(templates, Some("JavaScript"));
    let names: Vec<&str> = filtered.iter().map(|t| t.name.as_str()).collect();
    assert_eq!(names, vec!["one", "two"]);
}

#[test]
fn test_filter_unknown_and_unrecognized() {
    let templates = vec![
        tagged("plain", None),
        tagged("weird", Some("klingon")),
        tagged("ok", Some("rust")),
    ];
    let unknown = filter_by_language(templates, Some("unknown"));
    assert_eq!(unknown.len(), 1);
    assert_eq!(unknown[0].name, "plain");

    let templates = vec![
        tagged("plain", None),
        tagged("weird", Some("klingon")),
        tagged("ok", Some("rust")),
    ];
    let unrecognized = filter_by_language(templates, Some("unrecognized"));
    assert_eq!(unrecognized.len(), 1);
    assert_eq!(unrecognized[0].name, "weird");
}

#[test]
fn test_filter_without_language_keeps_all() {
    let templates = vec![tagged("a", None), tagged("b", Some("rust"))];
    let filtered = filter_by_language(templates, None);
    assert_eq!(filtered.len(), 2);
}

#[test]
fn test_check_for_unrecognized() {
    let with = vec![tagged("a", Some("rust")), tagged("b", Some("klingon"))];
    assert!(check_for_unrecognized(&with));
    let without = vec![tagged("a", Some("rust")), tagged("b", None)];
    assert!(!check_for_unrecognized(&without));
}

#[test]
fn test_group_by_language_order_and_keys() {
    let templates = vec![
        tagged("u", None),
        tagged("r1", Some("rs")),
        tagged("k", Some("klingon")),
        tagged("r2", Some("rust")),
    ];
    let groups = group_by_language(templates);
    let keys: Vec<&str> = groups.iter().map(|g| g.0.as_str()).collect();
    assert_eq!(keys, vec!["Rust", "klingon*", "\u{ffff}Unknown"]);
    let rust_group: Vec<&str> = groups[0].1.iter().map(|t| t.name.as_str()).collect();
    assert_eq!(rust_group, vec!["r1", "r2"]);
    assert_eq!(groups[2].1[0].name, "u");
}

#[test]
fn test_template_getters() {
    let t = Template {
        name: "id".to_string(),
        path: "/r/id".to_string(),
        config: TemplateConfig {
            name: Some("pretty".to_string()),
            language: Some("rust".to_string()),
            description: Some("desc".to_string()),
            author: Some("me".to_string()),
            version: Some("0.2.0".to_string()),
            tags: Some(vec!["x".to_string()]),
            min_tool_version: Some("0.1.0".to_string()),
        },
    };
    assert_eq!(t.display_name(), "pretty");
    assert_eq!(t.language(), Some("rust"));
    assert_eq!(t.description(), Some("desc"));
    assert_eq!(t.author(), Some("me"));
    assert_eq!(t.version(), Some("0.2.0"));
    assert_eq!(t.tags().unwrap(), &vec!["x".to_string()]);

    let bare = Template { name: "id".to_string(), path: "/r/id".to_string(), config: empty_config() };
    assert_eq!(bare.display_name(), "id");
    assert_eq!(bare.language(), None);
}

#[test]
fn test_is_valid_template() {
    let with = dir("a", ConfigFile::Parsed(empty_config()), vec![]);
    let broken = dir("b", ConfigFile::Invalid, vec![]);
    let without = dir("c", ConfigFile::Absent, vec![]);
    assert!(Template::is_valid_template(&with));
    assert!(Template::is_valid_template(&broken));
    assert!(!Template::is_valid_template(&without));
}
