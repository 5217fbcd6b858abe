use rudiff::config::{Config, ConfigError, RawConfig, RawExplain, RawGroup};
use rudiff::explain::ExplainModel;

fn strings(value: Option<&toml::Value>) -> Vec<String> {
    match value.and_then(|v| v.as_array()) {
        Some(list) => list.iter().map(|v| v.as_str().unwrap().to_string()).collect(),
        None => Vec::new(),
    }
}

fn raw(text: &str) -> RawConfig {
    let table: toml::Table = text.parse().unwrap();
    let group = match table.get("group").and_then(|g| g.as_array()) {
        Some(list) => list
            .iter()
            .map(|g| RawGroup {
                name: g.get("name").unwrap().as_str().unwrap().to_string(),
                patterns: strings(g.get("patterns")),
            })
            .collect(),
        None => Vec::new(),
    };
    let explain = table.get("explain").map(|e| RawExplain {
        model: e.get("model").map(|m| m.as_str().unwrap().to_string()),
    });
    RawConfig { group, explain }
}

fn config(text: &str) -> Config {
    match Config::parse(raw(text)) {
        Ok(c) => c,
        Err(e) => panic!("{}", e.message()),
    }
}

#[test]
fn parses_explain_model() {
    assert_eq!(
        config("[explain]\nmodel = \"sonnet\"\n").explain_model(),
        Some(ExplainModel::Sonnet)
    );
    assert_eq!(
        config("[explain]\nmodel = \"OPUS\"\n").explain_model(),
        Some(ExplainModel::Opus)
    );
    assert_eq!(config("[explain]\nmodel = \"gpt\"\n").explain_model(), None);
    assert_eq!(
        config("[[group]]\nname=\"A\"\npatterns=[\"x/**\"]\n").explain_model(),
        None
    );
}

#[test]
fn matches_gitignore_style_globs() {
    let cfg = config(
        r#"
        [[group]]
        name = "Auth"
        patterns = ["server/auth/**", "clients/*/auth/**"]

        [[group]]
        name = "Billing"
        patterns = ["server/billing/**"]
        "#,
    );
    assert_eq!(cfg.groups_for("server/auth/session.rs"), vec![0]);
    assert_eq!(cfg.groups_for("clients/web/auth/login.ts"), vec![0]);
    assert_eq!(cfg.groups_for("server/billing/invoice.rs"), vec![1]);
    assert!(cfg.groups_for("clients/web/deep/auth/x.ts").is_empty());
    assert!(cfg.groups_for("README.md").is_empty());
}

#[test]
fn file_can_match_multiple_groups() {
    let cfg = config(
        r#"
        [[group]]
        name = "A"
        patterns = ["src/**"]
        [[group]]
        name = "B"
        patterns = ["**/auth/**"]
        "#,
    );
    assert_eq!(cfg.groups_for("src/auth/x.rs"), vec![0, 1]);
}

#[test]
fn group_names_keep_their_order() {
    let cfg = config(
        "[[group]]\nname=\"Z\"\npatterns=[\"a/**\"]\n[[group]]\nname=\"A\"\npatterns=[]\n",
    );
    assert_eq!(cfg.group_names(), vec!["Z".to_string(), "A".to_string()]);
    assert!(cfg.groups_for("b/x").is_empty());
}

#[test]
fn a_bad_pattern_is_named_with_its_group() {
    let parsed = Config::parse(raw("[[group]]\nname=\"Bad\"\npatterns=[\"ok/**\", \"a[\"]\n"));
    match parsed {
        Err(ConfigError::InvalidGlob { pattern, group }) => {
            assert_eq!(pattern, "a[");
            assert_eq!(group, "Bad");
        }
        _ => panic!("expected a refusal"),
    }
}

#[test]
fn a_configuration_is_searched_up_to_the_root() {
    let found = Config::discover("/work/repo/a/b", "/work/repo");
    assert_eq!(
        found,
        vec![
            "/work/repo/a/b/.rudiff.toml".to_string(),
            "/work/repo/a/.rudiff.toml".to_string(),
            "/work/repo/.rudiff.toml".to_string(),
        ]
    );
}
