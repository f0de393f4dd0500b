use ikura::config::{load_config, Branch, Config};

#[test]
fn default_branch_is_main() {
    let b = Branch::default();
    assert_eq!(b.0, "main");
}

#[test]
fn default_config_is_empty() {
    let c = Config::default();
    assert_eq!(c.branch.0, "main");
    assert!(c.pathspec.is_empty());
    assert_eq!(c.repository_path, "");
}

#[test]
fn overrides_replace_base_values() {
    let base = Config {
        branch: Branch::new("main".to_string()),
        pathspec: vec!["src".to_string()],
        repository_path: "/somewhere".to_string(),
    };
    let merged = load_config(
        base,
        Some("/elsewhere".to_string()),
        Some("develop".to_string()),
        vec!["docs".to_string()],
    );
    assert_eq!(merged.repository_path, "/elsewhere");
    assert_eq!(merged.branch.0, "develop");
    assert_eq!(merged.pathspec, vec!["src".to_string(), "docs".to_string()]);
}

#[test]
fn absent_overrides_keep_the_base() {
    let base = Config {
        branch: Branch::new("trunk".to_string()),
        pathspec: vec!["lib".to_string()],
        repository_path: "/repo".to_string(),
    };
    let merged = load_config(base, None, None, vec![]);
    assert_eq!(merged.repository_path, "/repo");
    assert_eq!(merged.branch.0, "trunk");
    assert_eq!(merged.pathspec, vec!["lib".to_string()]);
}
