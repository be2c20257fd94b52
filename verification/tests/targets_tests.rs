use rule_api::targets_loader::{
    infer_file_kind, is_supported_render_target_config, is_yaml_config, parse_scope,
    resolve_config_output_root, resolve_import_path, resolve_scope_fields, tree_output_path,
    RawTargetDefaults,
};
use rule_api::targets_model::{RenderTarget, RenderTargetConfig, RenderTargetFilter, RenderTargetNode};
use rule_api::targets_query::{
    render_target_by_name, render_target_by_selector, resolve_render_target_output, TargetConfigError,
};

fn target(name: &str, output: &str) -> RenderTarget {
    RenderTarget {
        name: name.to_string(),
        repo_scope: "context-engine".to_string(),
        file_kind: "AGENTS".to_string(),
        path_scope: Some("AGENTS.md".to_string()),
        section: None,
        state: None,
        nodes: Vec::new(),
        output_path: output.to_string(),
        source_config_path: None,
        source_output_root: None,
    }
}

#[test]
fn infer_file_kind_recognises_well_known_filenames() {
    assert_eq!(infer_file_kind("AGENTS.md"), Some("AGENTS"));
    assert_eq!(infer_file_kind("README.md"), Some("README"));
    assert_eq!(infer_file_kind("copilot-instructions.md"), Some("copilot-instructions"));
    assert_eq!(infer_file_kind(".agents/agents/interview.agent.md"), Some(".agent"));
    assert_eq!(infer_file_kind(".agents/prompts/spec.prompt.md"), Some(".prompt"));
    assert_eq!(infer_file_kind(".agents/instructions/audit.instructions.md"), Some(".instructions"));
    assert_eq!(infer_file_kind(".spec/specs/uuid/body.md"), Some("spec-doc"));
    assert_eq!(infer_file_kind("some/unknown/file.md"), None);
}

#[test]
fn parse_scope_splits_repo_and_path() {
    let (repo, path) = parse_scope("t", "context-engine:AGENTS.md").unwrap();
    assert_eq!(repo, "context-engine");
    assert_eq!(path, "AGENTS.md");
}

#[test]
fn parse_scope_rejects_missing_separator() {
    let err = parse_scope("t", "no-colon-here").unwrap_err();
    assert!(matches!(err, TargetConfigError::InvalidScope { .. }));
}

#[test]
fn parse_scope_rejects_empty_repo() {
    let err = parse_scope("t", ":AGENTS.md").unwrap_err();
    assert!(matches!(err, TargetConfigError::InvalidScope { .. }));
}

#[test]
fn parse_scope_rejects_empty_path() {
    let err = parse_scope("t", "context-engine:").unwrap_err();
    assert!(matches!(err, TargetConfigError::InvalidScope { .. }));
}

#[test]
fn parse_scope_splits_at_the_first_colon_only() {
    let (repo, path) = parse_scope("t", "repo:dir:file.md").unwrap();
    assert_eq!(repo, "repo");
    assert_eq!(path, "dir:file.md");
    assert_eq!(format!("{repo}:{path}"), "repo:dir:file.md");
}

#[test]
fn scope_fields_take_explicit_then_shorthand_then_defaults() {
    let defaults = RawTargetDefaults {
        repo_scope: Some("default-repo".to_string()),
        file_kind: None,
        path_scope: Some("README.md".to_string()),
        section: None,
        state: None,
    };
    let (repo, kind, path) =
        resolve_scope_fields("t", &None, &None, &None, &None, &defaults).unwrap();
    assert_eq!((repo.as_str(), kind.as_str(), path.as_deref()), ("default-repo", "README", Some("README.md")));
    let (repo, kind, path) = resolve_scope_fields(
        "t",
        &Some("explicit".to_string()),
        &None,
        &None,
        &Some("short:AGENTS.md".to_string()),
        &defaults,
    )
    .unwrap();
    assert_eq!((repo.as_str(), kind.as_str(), path.as_deref()), ("explicit", "AGENTS", Some("AGENTS.md")));
    let none = RawTargetDefaults { repo_scope: None, file_kind: None, path_scope: None, section: None, state: None };
    let err = resolve_scope_fields("t", &Some("r".to_string()), &None, &Some("notes.txt".to_string()), &None, &none).unwrap_err();
    assert!(matches!(err, TargetConfigError::MissingFileKind { ref target } if target == "t"));
}

#[test]
fn resolve_render_target_output_uses_config_parent_for_relative_paths() {
    let config_path = "repo/rule-targets.yaml";
    let t = target("context-engine-agents", ".github/generated/AGENTS.md");
    assert_eq!(resolve_render_target_output(config_path, &t), "repo/.github/generated/AGENTS.md");
}

#[test]
fn resolve_render_target_output_uses_rule_targets_directory_parent() {
    let mut t = target("context-engine-agents", "AGENTS.md");
    t.source_config_path = Some("repo/rule-targets/20-agents.yaml".to_string());
    t.source_output_root = Some("repo".to_string());
    assert_eq!(resolve_render_target_output("repo/rule-targets.yaml", &t), "repo/AGENTS.md");
}

#[test]
fn absolute_outputs_are_kept() {
    let t = target("abs", "/etc/generated/AGENTS.md");
    assert_eq!(resolve_render_target_output("repo/rule-targets.yaml", &t), "/etc/generated/AGENTS.md");
}

#[test]
fn config_output_roots_and_import_paths() {
    assert_eq!(resolve_config_output_root("repo/rule-targets.yaml"), "repo");
    assert_eq!(resolve_config_output_root("repo/rule-targets/10-a.yaml"), "repo");
    assert_eq!(resolve_config_output_root("repo/rule-targets/nested/10-a.yaml"), "repo");
    assert_eq!(resolve_config_output_root("rule-targets.yaml"), "");
    assert_eq!(resolve_import_path("repo/rule-targets.yaml", "child/rule-targets.yaml"), "repo/child/rule-targets.yaml");
    assert_eq!(resolve_import_path("repo/rule-targets.yaml", "/abs/x.yaml"), "/abs/x.yaml");
    assert_eq!(tree_output_path("", "AGENTS.md"), "AGENTS.md");
    assert_eq!(tree_output_path(".github", "README.md"), ".github/README.md");
}

#[test]
fn config_file_names() {
    assert!(is_supported_render_target_config("a/b.yaml"));
    assert!(is_supported_render_target_config("a/b.yml"));
    assert!(is_supported_render_target_config("a/b.toml"));
    assert!(!is_supported_render_target_config("a/notes.txt"));
    assert!(is_yaml_config("x.yml"));
    assert!(!is_yaml_config("x.toml"));
}

#[test]
fn targets_are_found_by_name_then_by_output_path() {
    let config = RenderTargetConfig {
        targets: vec![target("agents", "AGENTS.md"), target("readme", "docs\\README.md"), target("other", "docs/README.md")],
    };
    assert_eq!(render_target_by_name(&config, "readme").unwrap().name, "readme");
    assert!(matches!(
        render_target_by_name(&config, "missing"),
        Err(TargetConfigError::NotFound(ref n)) if n == "missing"
    ));
    assert_eq!(render_target_by_selector(&config, "repo/rule-targets.yaml", "AGENTS.md").unwrap().name, "agents");
    assert_eq!(render_target_by_selector(&config, "repo/rule-targets.yaml", "repo/AGENTS.md").unwrap().name, "agents");
    assert!(matches!(
        render_target_by_selector(&config, "repo/rule-targets.yaml", "docs\\README.md"),
        Err(TargetConfigError::AmbiguousSelector { ref selector, ref matches })
        if selector == "docs/README.md" && matches == "readme, other"
    ));
    assert!(matches!(
        render_target_by_selector(&config, "repo/rule-targets.yaml", "nowhere.md"),
        Err(TargetConfigError::NotFound(ref s)) if s == "nowhere.md"
    ));
}

#[test]
fn node_filters_inherit_what_they_leave_open() {
    let parent = RenderTargetFilter {
        repo_scope: Some("repo".to_string()),
        file_kind: Some("AGENTS".to_string()),
        path_scope: None,
        section: Some("outer".to_string()),
        state: None,
    };
    let node = RenderTargetNode {
        name: "inner".to_string(),
        title: None,
        repo_scope: None,
        file_kind: None,
        path_scope: Some("AGENTS.md".to_string()),
        section: Some("outer/inner".to_string()),
        state: None,
        nodes: Vec::new(),
    };
    let effective = node.effective_filter(&parent);
    assert_eq!(effective.repo_scope.as_deref(), Some("repo"));
    assert_eq!(effective.path_scope.as_deref(), Some("AGENTS.md"));
    assert_eq!(effective.section.as_deref(), Some("outer/inner"));
    let rule_filter = effective.to_rule_filter();
    assert_eq!(rule_filter.file_kind.as_deref(), Some("AGENTS"));
    assert!(rule_filter.slug.is_none());
}

#[test]
fn trailing_dot_components_are_not_path_components() {
    let t = target("agents", "AGENTS.md");
    assert_eq!(resolve_render_target_output("a/b/.", &t), "a/AGENTS.md");
    assert_eq!(resolve_render_target_output("a/b/./", &t), "a/AGENTS.md");
    assert_eq!(resolve_render_target_output("a/./b", &t), "a/AGENTS.md");
    assert_eq!(resolve_render_target_output("./b", &t), "./AGENTS.md");
    assert_eq!(resolve_render_target_output("/.", &t), "./AGENTS.md");
    let config = RenderTargetConfig { targets: vec![target("agents", "AGENTS.md")] };
    assert_eq!(render_target_by_selector(&config, "a/b/.", "a/AGENTS.md").unwrap().name, "agents");
    assert_eq!(resolve_config_output_root("repo/rule-targets/."), "repo");
    assert_eq!(resolve_import_path("a/b/.", "c.yaml"), "a/c.yaml");
}
