use rule_api::targets_load::{
    load_render_target_config, pending_config_read, ConfigSnapshot, SnapshotEntry,
};
use rule_api::targets_loader::{
    RawRenderTarget, RawRenderTargetConfig, RawTargetDefaults, RenderTargetDefinition,
    RenderTargetFile, RenderTargetFolder, RenderTargetKind, RenderTargetNodeMode,
    RenderTargetRequiredBlocks, RenderTargetSchema,
};
use rule_api::targets_model::{RenderTarget, RenderTargetConfig, RenderTargetNode};
use rule_api::targets_query::{render_target_by_name, resolve_render_target_output, TargetConfigError};

fn defaults() -> RawTargetDefaults {
    RawTargetDefaults {
        repo_scope: None,
        file_kind: None,
        path_scope: None,
        section: None,
        state: None,
    }
}

fn config() -> RawRenderTargetConfig {
    RawRenderTargetConfig {
        imports: Vec::new(),
        defaults: defaults(),
        schemas: Vec::new(),
        targets: Vec::new(),
        folders: Vec::new(),
        files: Vec::new(),
    }
}

fn target(name: &str) -> RawRenderTarget {
    RawRenderTarget {
        name: name.to_string(),
        scope: None,
        repo_scope: None,
        file_kind: None,
        path_scope: None,
        section: None,
        state: None,
        nodes: Vec::new(),
        output_path: None,
        schema: None,
        target_kind: None,
        node_mode: None,
    }
}

fn full_target(name: &str, repo: &str, kind: &str, path: Option<&str>, output: &str) -> RawRenderTarget {
    let mut t = target(name);
    t.repo_scope = Some(repo.to_string());
    t.file_kind = Some(kind.to_string());
    t.path_scope = path.map(str::to_string);
    t.output_path = Some(output.to_string());
    t
}

fn definition(name: &str, repo: &str, kind: &str, path: Option<&str>) -> RenderTargetDefinition {
    RenderTargetDefinition {
        name: name.to_string(),
        scope: None,
        repo_scope: Some(repo.to_string()),
        file_kind: Some(kind.to_string()),
        path_scope: path.map(str::to_string),
        section: None,
        state: None,
        nodes: Vec::new(),
        schema: None,
        target_kind: None,
        node_mode: None,
    }
}

fn file(name: &str, target: RenderTargetDefinition) -> RenderTargetFile {
    RenderTargetFile { name: name.to_string(), target }
}

fn folder(name: &str, files: Vec<RenderTargetFile>, folders: Vec<RenderTargetFolder>) -> RenderTargetFolder {
    RenderTargetFolder { name: name.to_string(), folders, files }
}

fn node(name: &str, title: Option<&str>, section: Option<&str>, nodes: Vec<RenderTargetNode>) -> RenderTargetNode {
    RenderTargetNode {
        name: name.to_string(),
        title: title.map(str::to_string),
        repo_scope: None,
        file_kind: None,
        path_scope: None,
        section: section.map(str::to_string),
        state: None,
        nodes,
    }
}

fn parsed(canonical: &str, cfg: RawRenderTargetConfig) -> SnapshotEntry {
    SnapshotEntry::File { canonical: canonical.to_string(), parsed: Ok(cfg) }
}

fn directory(names: &[&str]) -> SnapshotEntry {
    SnapshotEntry::Directory { listing: Ok(names.iter().map(|n| n.to_string()).collect()) }
}

fn snapshot(entries: Vec<(&str, SnapshotEntry)>) -> ConfigSnapshot {
    ConfigSnapshot {
        entries: entries.into_iter().map(|(p, e)| (p.to_string(), e)).collect(),
    }
}

fn single(path: &str, cfg: RawRenderTargetConfig) -> ConfigSnapshot {
    snapshot(vec![(path, parsed(path, cfg))])
}

fn load_one(path: &str, cfg: RawRenderTargetConfig) -> Result<RenderTargetConfig, TargetConfigError> {
    let snap = single(path, cfg);
    assert!(pending_config_read(&snap, path).is_none());
    load_render_target_config(&snap, path)
}

fn names(config: &RenderTargetConfig) -> Vec<String> {
    config.targets.iter().map(|t| t.name.clone()).collect()
}

fn target_node_names(target: &RenderTarget) -> Vec<String> {
    target.ordered_nodes().into_iter().map(|n| n.name).collect()
}

fn readme_schema(names_and_titles: &[(&str, &str)]) -> RenderTargetSchema {
    RenderTargetSchema {
        name: "repository-readme-v1".to_string(),
        nodes: names_and_titles.iter().map(|(n, t)| node(n, Some(t), None, Vec::new())).collect(),
        required_blocks: RenderTargetRequiredBlocks { root: Vec::new(), child: Vec::new() },
    }
}

// ── tests_load/tests_config ─────────────────────────────────────────────────

#[test]
fn load_render_target_config_parses_targets_and_rejects_duplicates() {
    let mut cfg = config();
    cfg.targets.push(full_target("context-engine-agents", "context-engine", "AGENTS", Some("AGENTS.md"), "AGENTS.md"));
    let config = load_one("/tmp/w/rule-targets.yaml", cfg).unwrap();

    assert_eq!(config.targets.len(), 1);
    assert_eq!(config.targets[0].name, "context-engine-agents");
    assert_eq!(config.targets[0].path_scope.as_deref(), Some("AGENTS.md"));
    assert_eq!(config.targets[0].ordered_nodes().len(), 1);

    let mut dup = config_with_dup();
    dup.imports.clear();
    let err = load_one("/tmp/w/duplicate-rule-targets.yaml", dup).unwrap_err();
    assert!(matches!(err, TargetConfigError::DuplicateName(name) if name == "dup"));
}

fn config_with_dup() -> RawRenderTargetConfig {
    let mut cfg = config();
    cfg.targets.push(full_target("dup", "context-engine", "AGENTS", Some("AGENTS.md"), "AGENTS.md"));
    cfg.targets.push(full_target("dup", "memory-api", "AGENTS", Some("memory-api/AGENTS.md"), "memory-api/AGENTS.md"));
    cfg
}

#[test]
fn load_render_target_config_supports_file_folder_tree_structure() {
    let mut cfg = config();
    cfg.files.push(file("AGENTS.md", definition("context-engine-agents", "context-engine", "AGENTS", Some("AGENTS.md"))));
    let mut spec_prompt = definition("context-engine-prompt-spec", "context-engine", ".prompt", Some(".agents/prompts/spec.prompt.md"));
    spec_prompt.nodes.push(node("spec-prompt", None, Some("spec-prompt"), Vec::new()));
    cfg.folders.push(folder(
        ".github",
        vec![file(
            "copilot-instructions.md",
            definition("context-engine-copilot-instructions", "context-engine", "copilot-instructions", Some(".github/copilot-instructions.md")),
        )],
        vec![folder("prompts", vec![file("spec.prompt.md", spec_prompt)], Vec::new())],
    ));
    let config = load_one("/tmp/w/rule-targets.yaml", cfg).unwrap();

    assert_eq!(config.targets.len(), 3);
    assert_eq!(config.targets[0].name, "context-engine-agents");
    assert_eq!(config.targets[0].output_path, "AGENTS.md");
    assert_eq!(config.targets[1].output_path, ".github/copilot-instructions.md");
    assert_eq!(config.targets[2].output_path, ".agents/prompts/spec.prompt.md");
    assert_eq!(config.targets[2].nodes.len(), 1);
    assert_eq!(config.targets[2].nodes[0].name, "spec-prompt");
}

#[test]
fn load_render_target_config_preserves_domain_tree_target_order() {
    let mut cfg = config();
    cfg.files.push(file("AGENTS.md", definition("context-engine-agents", "context-engine", "AGENTS", Some("AGENTS.md"))));
    cfg.folders.push(folder(
        "memory-viewers",
        vec![file("AGENTS.md", definition("memory-viewers-agents", "memory-viewers", "AGENTS", Some("memory-viewers/AGENTS.md")))],
        vec![folder(
            "memory-api",
            vec![file("AGENTS.md", definition("memory-api-agents", "memory-api", "AGENTS", Some("memory-api/AGENTS.md")))],
            Vec::new(),
        )],
    ));
    cfg.folders.push(folder(
        ".github",
        Vec::new(),
        vec![folder(
            "prompts",
            vec![file("spec.prompt.md", definition("context-engine-prompt-spec", "context-engine", ".prompt", Some(".agents/prompts/spec.prompt.md")))],
            Vec::new(),
        )],
    ));
    cfg.folders.push(folder(
        ".agents",
        Vec::new(),
        vec![folder(
            "instructions",
            vec![file(
                "audit.instructions.md",
                definition("context-engine-instruction-audit", "context-engine", ".instructions", Some(".agents/instructions/audit.instructions.md")),
            )],
            Vec::new(),
        )],
    ));
    let config = load_one("/tmp/w/rule-targets.yaml", cfg).unwrap();
    let outputs = config.targets.iter().map(|t| t.output_path.as_str()).collect::<Vec<_>>();

    assert_eq!(
        names(&config),
        vec![
            "context-engine-agents",
            "memory-viewers-agents",
            "memory-api-agents",
            "context-engine-prompt-spec",
            "context-engine-instruction-audit",
        ]
    );
    assert_eq!(
        outputs,
        vec![
            "AGENTS.md",
            "memory-viewers/AGENTS.md",
            "memory-api/AGENTS.md",
            ".agents/prompts/spec.prompt.md",
            ".agents/instructions/audit.instructions.md",
        ]
    );
}

#[test]
fn load_render_target_config_rejects_duplicate_names_across_tree_targets() {
    let mut cfg = config();
    cfg.targets.push(full_target("dup", "context-engine", "AGENTS", None, "AGENTS.md"));
    cfg.folders.push(folder(
        ".github",
        vec![file("README.md", definition("dup", "context-engine", "README", None))],
        Vec::new(),
    ));
    let err = load_one("/tmp/w/rule-targets.yaml", cfg).unwrap_err();
    assert!(matches!(err, TargetConfigError::DuplicateName(name) if name == "dup"));
}

#[test]
fn load_render_target_config_imports_child_targets_with_source_config_paths() {
    let repo_root = "/tmp/w/repo";
    let child_dir = "/tmp/w/repo/memory-viewers";
    let child_path = "/tmp/w/repo/memory-viewers/rule-targets.yaml";
    let root_path = "/tmp/w/repo/rule-targets.yaml";

    let mut child = config();
    child.files.push(file("AGENTS.md", definition("memory-viewers-agents", "memory-viewers", "AGENTS", Some("AGENTS.md"))));
    let mut root = config();
    root.imports.push("memory-viewers/rule-targets.yaml".to_string());
    root.files.push(file("AGENTS.md", definition("context-engine-agents", "context-engine", "AGENTS", Some("AGENTS.md"))));
    let snap = snapshot(vec![(root_path, parsed(root_path, root)), (child_path, parsed(child_path, child))]);

    let config = load_render_target_config(&snap, root_path).unwrap();
    assert_eq!(config.targets.len(), 2);

    let imported = render_target_by_name(&config, "memory-viewers-agents").unwrap();
    assert_eq!(imported.source_config_path.as_deref(), Some(child_path));
    assert_eq!(imported.source_output_root.as_deref(), Some(child_dir));
    assert_eq!(resolve_render_target_output(root_path, imported), format!("{child_dir}/AGENTS.md"));

    let local = render_target_by_name(&config, "context-engine-agents").unwrap();
    assert_eq!(local.source_config_path.as_deref(), Some(root_path));
    assert_eq!(local.source_output_root.as_deref(), Some(repo_root));
    assert_eq!(resolve_render_target_output(root_path, local), format!("{repo_root}/AGENTS.md"));
}

#[test]
fn load_render_target_config_imports_directory_fragments_in_sorted_order() {
    let child_dir = "/tmp/w/repo/memory-viewers";
    let targets_dir = "/tmp/w/repo/memory-viewers/rule-targets";
    let root_path = "/tmp/w/repo/rule-targets.yaml";
    let agents_path = "/tmp/w/repo/memory-viewers/rule-targets/20-agents.yaml";
    let readme_path = "/tmp/w/repo/memory-viewers/rule-targets/10-readme.yaml";

    let mut agents = config();
    agents.targets.push(full_target("memory-viewers-agents", "memory-viewers", "AGENTS", None, "AGENTS.md"));
    let mut readme = config();
    readme.targets.push(full_target("memory-viewers-readme", "memory-viewers", "README", None, "README.md"));
    let mut root = config();
    root.imports.push("memory-viewers/rule-targets".to_string());
    root.targets.push(full_target("context-engine-agents", "context-engine", "AGENTS", None, "AGENTS.md"));
    let snap = snapshot(vec![
        (root_path, parsed(root_path, root)),
        (targets_dir, directory(&["20-agents.yaml", "10-readme.yaml", "notes.txt"])),
        (agents_path, parsed(agents_path, agents)),
        (readme_path, parsed(readme_path, readme)),
    ]);

    let config = load_render_target_config(&snap, root_path).unwrap();
    assert_eq!(
        names(&config),
        vec!["memory-viewers-readme", "memory-viewers-agents", "context-engine-agents"]
    );

    let readme = render_target_by_name(&config, "memory-viewers-readme").unwrap();
    assert_eq!(readme.source_config_path.as_deref(), Some(readme_path));
    assert_eq!(readme.source_output_root.as_deref(), Some(child_dir));
    assert_eq!(resolve_render_target_output(root_path, readme), format!("{child_dir}/README.md"));

    let agents = render_target_by_name(&config, "memory-viewers-agents").unwrap();
    assert_eq!(agents.source_config_path.as_deref(), Some(agents_path));
    assert_eq!(agents.source_output_root.as_deref(), Some(child_dir));
    assert_eq!(resolve_render_target_output(root_path, agents), format!("{child_dir}/AGENTS.md"));
}

#[test]
fn load_render_target_config_accepts_top_level_directory_configs() {
    let repo_root = "/tmp/w/repo";
    let targets_dir = "/tmp/w/repo/rule-targets";
    let agents_path = "/tmp/w/repo/rule-targets/20-agents.yaml";
    let readme_path = "/tmp/w/repo/rule-targets/10-readme.yaml";

    let mut agents = config();
    agents.targets.push(full_target("context-engine-agents", "context-engine", "AGENTS", None, "AGENTS.md"));
    let mut readme = config();
    readme.targets.push(full_target("context-engine-readme", "context-engine", "README", None, "README.md"));
    let snap = snapshot(vec![
        (targets_dir, directory(&["20-agents.yaml", "10-readme.yaml", "notes.txt"])),
        (agents_path, parsed(agents_path, agents)),
        (readme_path, parsed(readme_path, readme)),
    ]);

    let config = load_render_target_config(&snap, targets_dir).unwrap();
    assert_eq!(names(&config), vec!["context-engine-readme", "context-engine-agents"]);

    let readme = render_target_by_name(&config, "context-engine-readme").unwrap();
    assert_eq!(readme.source_config_path.as_deref(), Some(readme_path));
    assert_eq!(readme.source_output_root.as_deref(), Some(repo_root));
    assert_eq!(resolve_render_target_output(targets_dir, readme), format!("{repo_root}/README.md"));

    let agents = render_target_by_name(&config, "context-engine-agents").unwrap();
    assert_eq!(agents.source_config_path.as_deref(), Some(agents_path));
    assert_eq!(agents.source_output_root.as_deref(), Some(repo_root));
    assert_eq!(resolve_render_target_output(targets_dir, agents), format!("{repo_root}/AGENTS.md"));
}

#[test]
fn load_render_target_config_rejects_duplicate_names_across_imports() {
    let root_path = "/tmp/w/repo/rule-targets.yaml";
    let child_path = "/tmp/w/repo/memory-viewers/rule-targets.yaml";
    let mut child = config();
    child.targets.push(full_target("dup", "memory-viewers", "AGENTS", None, "AGENTS.md"));
    let mut root = config();
    root.imports.push("memory-viewers/rule-targets.yaml".to_string());
    root.targets.push(full_target("dup", "context-engine", "AGENTS", None, "AGENTS.md"));
    let snap = snapshot(vec![(root_path, parsed(root_path, root)), (child_path, parsed(child_path, child))]);

    let err = load_render_target_config(&snap, root_path).unwrap_err();
    assert!(matches!(err, TargetConfigError::DuplicateName(name) if name == "dup"));
}

#[test]
fn load_render_target_config_rejects_import_cycles() {
    let root_path = "/tmp/w/repo/rule-targets.yaml";
    let child_path = "/tmp/w/repo/memory-viewers/rule-targets.yaml";
    let back_path = "/tmp/w/repo/memory-viewers/../rule-targets.yaml";
    let mut root = config();
    root.imports.push("memory-viewers/rule-targets.yaml".to_string());
    let mut child = config();
    child.imports.push("../rule-targets.yaml".to_string());
    let mut root_again = config();
    root_again.imports.push("memory-viewers/rule-targets.yaml".to_string());
    let snap = snapshot(vec![
        (root_path, parsed(root_path, root)),
        (child_path, parsed(child_path, child)),
        (back_path, parsed(root_path, root_again)),
    ]);

    let err = load_render_target_config(&snap, root_path).unwrap_err();
    assert!(matches!(err, TargetConfigError::ImportCycle { .. }));
}

#[test]
fn load_render_target_config_supports_legacy_toml() {
    let mut t = full_target("context-engine-agents", "context-engine", "AGENTS", Some("AGENTS.md"), "AGENTS.md");
    t.nodes.push(node(
        "agent-rules",
        Some("Agent Rules"),
        Some("agent-rules"),
        vec![
            node("operating-principles", Some("Operating Principles"), Some("agent-rules/operating-principles"), Vec::new()),
            node("task-routing", Some("Task Routing"), Some("agent-rules/task-routing"), Vec::new()),
        ],
    ));
    let mut cfg = config();
    cfg.targets.push(t);
    let config = load_one("/tmp/w/rule-targets.toml", cfg).unwrap();
    let target = &config.targets[0];

    assert_eq!(target.name, "context-engine-agents");
    assert_eq!(target.nodes.len(), 1);
    assert_eq!(target.nodes[0].name, "agent-rules");
    assert_eq!(target.nodes[0].nodes.len(), 2);
    assert_eq!(target.nodes[0].nodes[0].name, "operating-principles");
    assert_eq!(target.nodes[0].nodes[1].name, "task-routing");
}

#[test]
fn load_render_target_config_parses_hierarchical_outline_nodes_in_order() {
    let mut t = full_target("context-engine-agents", "context-engine", "AGENTS", None, "AGENTS.md");
    t.nodes.push(node(
        "opening",
        Some("Opening"),
        Some("opening"),
        vec![node("validation", Some("Validation"), Some("opening/validation"), Vec::new())],
    ));
    t.nodes.push(node("quality-gates", Some("Quality Gates"), Some("quality-gates"), Vec::new()));
    let mut cfg = config();
    cfg.targets.push(t);
    let config = load_one("/tmp/w/hierarchical-rule-targets.yaml", cfg).unwrap();

    let target = &config.targets[0];
    let nodes = target.ordered_nodes();

    assert_eq!(nodes.len(), 2);
    assert_eq!(nodes[0].name, "opening");
    assert_eq!(nodes[1].name, "quality-gates");
    assert_eq!(nodes[0].nodes.len(), 1);
    assert_eq!(nodes[0].nodes[0].name, "validation");

    let inherited = target.flat_filter();
    assert_eq!(nodes[0].effective_filter(&inherited).repo_scope.as_deref(), Some("context-engine"));
    assert_eq!(nodes[0].effective_filter(&inherited).file_kind.as_deref(), Some("AGENTS"));
    assert_eq!(nodes[0].effective_filter(&inherited).section.as_deref(), Some("opening"));
    assert_eq!(
        nodes[0].nodes[0]
            .effective_filter(&nodes[0].effective_filter(&inherited))
            .section
            .as_deref(),
        Some("opening/validation")
    );
}

// ── tests_load/tests_schema ─────────────────────────────────────────────────

#[test]
fn readme_schema_inherits_shared_outline_for_multiple_targets() {
    let mut cfg = config();
    cfg.schemas.push(readme_schema(&[
        ("summary", "Summary"),
        ("installable-content", "Installable Content"),
        ("command-docs", "Command Docs"),
    ]));
    let mut memory = full_target("memory-api-readme", "memory-api", "README", None, "README.md");
    memory.schema = Some("repository-readme-v1".to_string());
    let mut viewer = full_target("viewer-api-readme", "viewer-api", "README", None, "README.md");
    viewer.schema = Some("repository-readme-v1".to_string());
    cfg.targets.push(memory);
    cfg.targets.push(viewer);

    let config = load_one("/tmp/w/rule-targets.yaml", cfg).unwrap();
    let memory_api = render_target_by_name(&config, "memory-api-readme").unwrap();
    let viewer_api = render_target_by_name(&config, "viewer-api-readme").unwrap();
    let expected = vec![
        "summary".to_string(),
        "installable-content".to_string(),
        "command-docs".to_string(),
    ];

    assert_eq!(target_node_names(memory_api), expected);
    assert_eq!(target_node_names(viewer_api), expected);
}

#[test]
fn readme_schema_appends_explicit_nodes_without_redeclaring_outline() {
    let mut cfg = config();
    cfg.schemas.push(readme_schema(&[
        ("summary", "Summary"),
        ("installable-content", "Installable Content"),
        ("child-readmes", "Child READMEs"),
        ("command-docs", "Command Docs"),
    ]));
    let mut t = full_target("memory-viewers-readme", "memory-viewers", "README", None, "README.md");
    t.schema = Some("repository-readme-v1".to_string());
    t.node_mode = Some(RenderTargetNodeMode::Append);
    t.nodes.push(node("screenshots", Some("Screenshots"), Some("screenshots"), Vec::new()));
    cfg.targets.push(t);

    let config = load_one("/tmp/w/rule-targets.yaml", cfg).unwrap();
    let target = render_target_by_name(&config, "memory-viewers-readme").unwrap();

    assert_eq!(
        target_node_names(target),
        vec![
            "summary".to_string(),
            "installable-content".to_string(),
            "child-readmes".to_string(),
            "command-docs".to_string(),
            "screenshots".to_string(),
        ]
    );
}

#[test]
fn readme_schema_rejects_child_targets_missing_required_parent_block() {
    let mut cfg = config();
    let mut schema = readme_schema(&[]);
    schema.required_blocks.child = vec!["parent-readme".to_string(), "command-docs".to_string()];
    cfg.schemas.push(schema);
    let mut t = full_target("rule-cli-readme", "memory-api", "README", None, "tools/cli/rule-cli/README.md");
    t.schema = Some("repository-readme-v1".to_string());
    t.target_kind = Some(RenderTargetKind::Child);
    t.nodes.push(node("summary", Some("Summary"), None, Vec::new()));
    t.nodes.push(node("command-docs", Some("Command Docs"), None, Vec::new()));
    cfg.targets.push(t);

    let err = load_one("/tmp/w/rule-targets.yaml", cfg).expect_err(
        "child README targets should fail when the shared schema requires a parent-readme block",
    );
    assert!(matches!(
        err,
        TargetConfigError::MissingRequiredBlock { ref block, ref target_kind, .. }
        if block == "parent-readme" && target_kind == "child"
    ));
}

#[test]
fn load_render_target_config_allows_identical_schema_imports_across_fragments() {
    let shared_path = "/tmp/w/shared-schema.yaml";
    let config_dir = "/tmp/w/rule-targets";
    let root_fragment = "/tmp/w/rule-targets/10-root.yaml";
    let child_fragment = "/tmp/w/rule-targets/20-child.yaml";
    let shared_via_fragment = "/tmp/w/rule-targets/../shared-schema.yaml";

    let mut shared = config();
    shared.schemas.push(readme_schema(&[("summary", "Summary")]));
    let mut root = config();
    root.imports.push("../shared-schema.yaml".to_string());
    let mut root_target = full_target("root-readme", "memory-api", "README", None, "README.md");
    root_target.schema = Some("repository-readme-v1".to_string());
    root.targets.push(root_target);
    let mut child = config();
    child.imports.push("../shared-schema.yaml".to_string());
    let mut child_target = full_target("child-readme", "memory-api", "README", None, "tools/cli/rule-cli/README.md");
    child_target.schema = Some("repository-readme-v1".to_string());
    child.targets.push(child_target);
    let mut shared_again = config();
    shared_again.schemas.push(readme_schema(&[("summary", "Summary")]));

    let snap = snapshot(vec![
        (config_dir, directory(&["10-root.yaml", "20-child.yaml"])),
        (root_fragment, parsed(root_fragment, root)),
        (child_fragment, parsed(child_fragment, child)),
        (shared_via_fragment, parsed(shared_path, shared)),
        (shared_path, parsed(shared_path, shared_again)),
    ]);

    let config = load_render_target_config(&snap, config_dir).unwrap();

    assert!(render_target_by_name(&config, "root-readme").is_ok());
    assert!(render_target_by_name(&config, "child-readme").is_ok());
}

#[test]
fn schemas_with_one_name_and_different_outlines_are_refused() {
    let first_path = "/tmp/w/rule-targets/10-a.yaml";
    let second_path = "/tmp/w/rule-targets/20-b.yaml";
    let mut first = config();
    first.schemas.push(readme_schema(&[("summary", "Summary")]));
    let mut second = config();
    second.schemas.push(readme_schema(&[("overview", "Overview")]));
    let snap = snapshot(vec![
        ("/tmp/w/rule-targets", directory(&["10-a.yaml", "20-b.yaml"])),
        (first_path, parsed(first_path, first)),
        (second_path, parsed(second_path, second)),
    ]);
    let err = load_render_target_config(&snap, "/tmp/w/rule-targets").unwrap_err();
    assert!(matches!(err, TargetConfigError::DuplicateSchemaName(name) if name == "repository-readme-v1"));
}

#[test]
fn unknown_schema_is_reported_with_the_target() {
    let mut t = full_target("readme", "memory-api", "README", None, "README.md");
    t.schema = Some("missing-schema".to_string());
    let mut cfg = config();
    cfg.targets.push(t);
    let err = load_one("/tmp/w/rule-targets.yaml", cfg).unwrap_err();
    assert!(matches!(
        err,
        TargetConfigError::UnknownSchema { ref target, ref schema }
        if target == "readme" && schema == "missing-schema"
    ));
}

// ── the snapshot protocol ───────────────────────────────────────────────────

#[test]
fn pending_read_names_each_path_the_load_still_needs() {
    let root_path = "/tmp/w/repo/rule-targets.yaml";
    let mut root = config();
    root.imports.push("memory-viewers/rule-targets.yaml".to_string());
    root.targets.push(full_target("context-engine-agents", "context-engine", "AGENTS", None, "AGENTS.md"));

    let empty = snapshot(Vec::new());
    assert_eq!(pending_config_read(&empty, root_path).as_deref(), Some(root_path));

    let partial = snapshot(vec![(root_path, parsed(root_path, root))]);
    assert_eq!(
        pending_config_read(&partial, root_path).as_deref(),
        Some("/tmp/w/repo/memory-viewers/rule-targets.yaml")
    );
    let err = load_render_target_config(&partial, root_path).unwrap_err();
    assert!(matches!(
        err,
        TargetConfigError::Io { ref path, ref message }
        if path == "/tmp/w/repo/memory-viewers/rule-targets.yaml" && message == "not read"
    ));
}

#[test]
fn unreadable_files_and_parse_errors_are_reported() {
    let path = "/tmp/w/rule-targets.yaml";
    let unreadable = snapshot(vec![(path, SnapshotEntry::Unreadable { message: "permission denied".to_string() })]);
    assert!(matches!(
        load_render_target_config(&unreadable, path).unwrap_err(),
        TargetConfigError::Io { ref message, .. } if message == "permission denied"
    ));

    let broken = snapshot(vec![(
        path,
        SnapshotEntry::File {
            canonical: path.to_string(),
            parsed: Err(TargetConfigError::ParseYaml { path: path.to_string(), message: "bad indentation".to_string() }),
        },
    )]);
    assert!(matches!(
        load_render_target_config(&broken, path).unwrap_err(),
        TargetConfigError::ParseYaml { ref message, .. } if message == "bad indentation"
    ));
}

#[test]
fn a_directory_import_without_listing_is_an_io_error() {
    let root_path = "/tmp/w/rule-targets.yaml";
    let mut root = config();
    root.imports.push("fragments".to_string());
    let snap = snapshot(vec![
        (root_path, parsed(root_path, root)),
        ("/tmp/w/fragments", SnapshotEntry::Directory { listing: Err("not permitted".to_string()) }),
    ]);
    assert!(matches!(
        load_render_target_config(&snap, root_path).unwrap_err(),
        TargetConfigError::Io { ref path, ref message } if path == "/tmp/w/fragments" && message == "not permitted"
    ));
}

// ── tests_defaults (loading) ────────────────────────────────────────────────

#[test]
fn defaults_block_fills_repo_scope_and_file_kind() {
    let mut cfg = config();
    cfg.defaults.repo_scope = Some("context-engine".to_string());
    cfg.defaults.file_kind = Some(".agent".to_string());
    let mut a = target("agent-interview");
    a.path_scope = Some(".agents/agents/interview.agent.md".to_string());
    a.output_path = Some(".agents/agents/interview.agent.md".to_string());
    let mut b = target("agent-implement");
    b.path_scope = Some(".agents/agents/implement.agent.md".to_string());
    b.output_path = Some(".agents/agents/implement.agent.md".to_string());
    cfg.targets.push(a);
    cfg.targets.push(b);

    let config = load_one("/tmp/w/rule-targets.yaml", cfg).unwrap();
    assert_eq!(config.targets.len(), 2);
    for target in &config.targets {
        assert_eq!(target.repo_scope, "context-engine");
        assert_eq!(target.file_kind, ".agent");
    }
    assert_eq!(config.targets[0].path_scope.as_deref(), Some(".agents/agents/interview.agent.md"));
    assert_eq!(config.targets[1].path_scope.as_deref(), Some(".agents/agents/implement.agent.md"));
}

#[test]
fn target_level_fields_override_defaults() {
    let mut cfg = config();
    cfg.defaults.repo_scope = Some("context-engine".to_string());
    cfg.defaults.file_kind = Some(".agent".to_string());
    cfg.targets.push(full_target("special-agents", "memory-api", "AGENTS", None, "AGENTS.md"));

    let config = load_one("/tmp/w/rule-targets.yaml", cfg).unwrap();
    assert_eq!(config.targets.len(), 1);
    assert_eq!(config.targets[0].repo_scope, "memory-api");
    assert_eq!(config.targets[0].file_kind, "AGENTS");
}

#[test]
fn defaults_missing_required_fields_still_produce_error() {
    let mut cfg = config();
    cfg.defaults.file_kind = Some(".agent".to_string());
    let mut t = target("no-repo");
    t.path_scope = Some("AGENTS.md".to_string());
    t.output_path = Some("AGENTS.md".to_string());
    cfg.targets.push(t);

    let err = load_one("/tmp/w/rule-targets.yaml", cfg).unwrap_err();
    assert!(matches!(err, TargetConfigError::MissingRepoScope { ref target } if target == "no-repo"));
}

#[test]
fn scope_shorthand_expands_repo_path_and_infers_file_kind() {
    let mut t = target("context-engine-agents");
    t.scope = Some("context-engine:AGENTS.md".to_string());
    t.output_path = Some("AGENTS.md".to_string());
    let mut cfg = config();
    cfg.targets.push(t);

    let config = load_one("/tmp/w/rule-targets.yaml", cfg).unwrap();
    let t = &config.targets[0];
    assert_eq!(t.repo_scope, "context-engine");
    assert_eq!(t.file_kind, "AGENTS");
    assert_eq!(t.path_scope.as_deref(), Some("AGENTS.md"));
}

#[test]
fn scope_shorthand_infers_file_kind_for_agent_files() {
    let mut t = target("interview-agent");
    t.scope = Some("context-engine:.agents/agents/interview.agent.md".to_string());
    t.output_path = Some(".agents/agents/interview.agent.md".to_string());
    let mut cfg = config();
    cfg.targets.push(t);

    let config = load_one("/tmp/w/rule-targets.yaml", cfg).unwrap();
    let t = &config.targets[0];
    assert_eq!(t.file_kind, ".agent");
    assert_eq!(t.repo_scope, "context-engine");
    assert_eq!(t.path_scope.as_deref(), Some(".agents/agents/interview.agent.md"));
}

#[test]
fn scope_shorthand_output_path_defaults_to_path_scope() {
    let mut t = target("interview-agent");
    t.scope = Some("context-engine:.agents/agents/interview.agent.md".to_string());
    let mut cfg = config();
    cfg.targets.push(t);

    let config = load_one("/tmp/w/rule-targets.yaml", cfg).unwrap();
    assert_eq!(config.targets[0].output_path, ".agents/agents/interview.agent.md");
}

#[test]
fn scope_plus_defaults_compose_correctly() {
    let mut cfg = config();
    cfg.defaults.repo_scope = Some("context-engine".to_string());
    let mut t = target("audit-instructions");
    t.scope = Some("context-engine:.agents/instructions/audit.instructions.md".to_string());
    cfg.targets.push(t);

    let config = load_one("/tmp/w/rule-targets.yaml", cfg).unwrap();
    let t = &config.targets[0];
    assert_eq!(t.repo_scope, "context-engine");
    assert_eq!(t.file_kind, ".instructions");
    assert_eq!(t.path_scope.as_deref(), Some(".agents/instructions/audit.instructions.md"));
    assert_eq!(t.output_path, ".agents/instructions/audit.instructions.md");
}

#[test]
fn explicit_file_kind_overrides_scope_inferred_kind() {
    let mut t = target("special");
    t.scope = Some("context-engine:AGENTS.md".to_string());
    t.file_kind = Some("spec-doc".to_string());
    t.output_path = Some("AGENTS.md".to_string());
    let mut cfg = config();
    cfg.targets.push(t);

    let config = load_one("/tmp/w/rule-targets.yaml", cfg).unwrap();
    assert_eq!(config.targets[0].file_kind, "spec-doc");
}

#[test]
fn scope_shorthand_invalid_format_returns_error() {
    let mut t = target("bad");
    t.scope = Some("no-colon-here".to_string());
    t.output_path = Some("AGENTS.md".to_string());
    let mut cfg = config();
    cfg.targets.push(t);

    let err = load_one("/tmp/w/rule-targets.yaml", cfg).unwrap_err();
    assert!(matches!(err, TargetConfigError::InvalidScope { .. }));
}

#[test]
fn missing_output_path_without_scope_returns_error() {
    let mut t = target("no-output");
    t.repo_scope = Some("context-engine".to_string());
    t.file_kind = Some("AGENTS".to_string());
    let mut cfg = config();
    cfg.targets.push(t);

    let err = load_one("/tmp/w/rule-targets.yaml", cfg).unwrap_err();
    assert!(matches!(err, TargetConfigError::MissingOutputPath { ref target } if target == "no-output"));
}
