use rule_api::cli::{CliRunError, MoveArgs};
use rule_api::commands::{merge_path_scopes, move_request, path_scope_patch, MoveRequest};
use rule_api::error::RuleError;
use rule_api::rule_index::RuleIndex;
use rule_api::RuleManifest;

const HINT: &str = "run `rule scan`";

fn move_args(id: Option<&str>, to: Option<&str>, resume: Option<&str>, rollback: Option<&str>) -> MoveArgs {
    MoveArgs {
        id: id.map(str::to_string),
        to_workspace_root: to.map(str::to_string),
        dry_run: true,
        resume: resume.map(str::to_string),
        rollback: rollback.map(str::to_string),
    }
}

fn bad_request(error: CliRunError) -> String {
    match error {
        CliRunError::BadRequest(message) => message,
        other => panic!("unexpected error: {other:?}"),
    }
}

fn strings(items: &[&str]) -> Vec<String> {
    items.iter().map(|s| s.to_string()).collect()
}

#[test]
fn move_rejects_resume_with_rollback() {
    let index = RuleIndex::new();
    let args = move_args(None, None, Some("a"), Some("b"));
    let message = bad_request(move_request(&index, &args, HINT).unwrap_err());
    assert_eq!(message, "move accepts only one of --resume or --rollback");
}

#[test]
fn move_reads_journal_uuids() {
    let index = RuleIndex::new();
    let journal = "67e55044-10b1-426f-9247-bb680e5fe0c8";
    let expected = uuid::Uuid::parse_str(journal).unwrap().as_u128();
    match move_request(&index, &move_args(None, None, Some(journal), None), HINT).unwrap() {
        MoveRequest::Resume(id) => assert_eq!(id, expected),
        _ => panic!("expected a resume"),
    }
    match move_request(&index, &move_args(None, None, None, Some(journal)), HINT).unwrap() {
        MoveRequest::Rollback(id) => assert_eq!(id, expected),
        _ => panic!("expected a rollback"),
    }
    let parse_error = "not-a-uuid".parse::<uuid::Uuid>().unwrap_err().to_string();
    let message = bad_request(move_request(&index, &move_args(None, None, Some("not-a-uuid"), None), HINT).unwrap_err());
    assert_eq!(message, format!("invalid --resume journal UUID: {parse_error}"));
    let message = bad_request(move_request(&index, &move_args(None, None, None, Some("not-a-uuid")), HINT).unwrap_err());
    assert_eq!(message, format!("invalid --rollback journal UUID: {parse_error}"));
}

#[test]
fn move_requires_rule_and_destination() {
    let index = RuleIndex::new();
    let message = bad_request(move_request(&index, &move_args(None, Some("/w"), None, None), HINT).unwrap_err());
    assert_eq!(message, "move requires <id> unless --resume/--rollback");
    let message = bad_request(move_request(&index, &move_args(Some("a/b"), None, None, None), HINT).unwrap_err());
    assert_eq!(message, "move requires --to-workspace-root");
}

#[test]
fn move_plan_resolves_the_rule() {
    let mut index = RuleIndex::new();
    let manifest = RuleManifest::new("shared/agents/move-me", "Move Me", "AGENTS", "moving", "Body.");
    let id = index.create(&manifest).unwrap();
    match move_request(&index, &move_args(Some("shared/agents/move-me"), Some("/other"), None, None), HINT).unwrap() {
        MoveRequest::Plan { rule_id, to_workspace_root, dry_run } => {
            assert_eq!(rule_id, id);
            assert_eq!(to_workspace_root, "/other");
            assert!(dry_run);
        }
        _ => panic!("expected a plan"),
    }
    match move_request(&index, &move_args(Some("missing/rule"), Some("/other"), None, None), HINT) {
        Err(CliRunError::Rule(RuleError::NotFound(message))) => {
            assert_eq!(message, "missing/rule; run `rule scan`");
        }
        other => panic!("unexpected result: {other:?}"),
    }
}

#[test]
fn added_path_scopes_are_merged_once() {
    let merged = merge_path_scopes(strings(&["AGENTS.md", "docs/"]), &strings(&["docs/", "src/", "src/"]));
    assert_eq!(merged, strings(&["AGENTS.md", "docs/", "src/"]));
    assert_eq!(merge_path_scopes(Vec::new(), &Vec::new()), Vec::<String>::new());
}

#[test]
fn update_path_scope_patch_prefers_explicit_scopes() {
    let mut index = RuleIndex::new();
    let mut manifest = RuleManifest::new("shared/agents/scoped", "Scoped", "AGENTS", "scoped", "Body.");
    manifest.set_path_scopes(&strings(&["AGENTS.md"]));
    index.create(&manifest).unwrap();

    let explicit = path_scope_patch(&index, "shared/agents/scoped", &strings(&["README.md"]), &strings(&["x"]), HINT);
    assert_eq!(explicit.unwrap(), Some(strings(&["README.md"])));

    let none = path_scope_patch(&index, "shared/agents/scoped", &Vec::new(), &Vec::new(), HINT);
    assert_eq!(none.unwrap(), None);

    let added = path_scope_patch(&index, "shared/agents/scoped", &Vec::new(), &strings(&["AGENTS.md", "src/"]), HINT);
    assert_eq!(added.unwrap(), Some(strings(&["AGENTS.md", "src/"])));

    let missing = path_scope_patch(&index, "missing/rule", &Vec::new(), &strings(&["src/"]), HINT);
    assert!(matches!(missing, Err(RuleError::NotFound(_))));
}

use rule_api::cli::ImportFileArgs;
use rule_api::commands::{
    apply_source_location, default_section_from_path, import_action, import_patch, imported_rules,
    parse_fields, ImportAction,
};
use rule_api::RuleFilter;

fn import_args(path: &str, dry_run: bool) -> ImportFileArgs {
    ImportFileArgs {
        path: path.to_string(),
        file_kind: "AGENTS".to_string(),
        repo_scope: strings(&["context-engine", "memory-viewers"]),
        slug_prefix: "shared/agents".to_string(),
        default_section: None,
        path_scope: strings(&["AGENTS.md"]),
        source_repo: Some("context-engine".to_string()),
        dry_run,
    }
}

#[test]
fn import_file_creates_rules_from_markdown_blocks() {
    let content = "# Opening\n\nStart with the concrete anchor.\n\n## Validation\n\nRun the focused check next.";
    let args = import_args("docs\\AGENTS.md", false);
    let mut index = RuleIndex::new();
    let items = imported_rules(content, &args).unwrap();
    for item in &items {
        assert_eq!(import_action(&index, &item.block.slug, args.dry_run), ImportAction::Create);
        index.create(&item.manifest).unwrap();
    }

    assert_eq!(items.len(), 2);
    let filter = |repo: &str| RuleFilter { repo_scope: Some(repo.to_string()), ..RuleFilter::default() };
    let imported = index.list(&filter("context-engine"), None);
    let imported_memory_viewers = index.list(&filter("memory-viewers"), None);
    assert_eq!(imported.len(), 2);
    assert_eq!(imported_memory_viewers.len(), 2);
    assert_eq!(imported[0].slug(), Some("shared/agents/opening/l1"));
    assert_eq!(imported[1].slug(), Some("shared/agents/opening/validation/l5"));

    let first = &items[0].manifest;
    assert_eq!(first.section(), Some("opening"));
    let plain = imported_rules("Just a note.", &args).unwrap();
    assert_eq!(plain[0].manifest.section(), Some("docs-agents"));
    assert_eq!(first.source_repo(), Some("context-engine"));
    assert_eq!(first.source_path(), Some("docs/AGENTS.md"));
    assert_eq!(first.source_start_line(), Some(1));
    assert_eq!(first.path_scopes(), strings(&["AGENTS.md"]));
    assert_eq!(import_action(&index, "shared/agents/opening/l1", false), ImportAction::Update);
    assert_eq!(import_action(&index, "shared/agents/opening/l1", true), ImportAction::Preview);
    assert_eq!(ImportAction::Update.as_str(), "updated");
}

#[test]
fn import_requires_a_source_repository() {
    let mut args = import_args("AGENTS.md", true);
    args.source_repo = None;
    args.repo_scope = Vec::new();
    let message = bad_request(imported_rules("# Title\n\nBody.", &args).unwrap_err());
    assert_eq!(message, "at least one --repo is required");

    args.repo_scope = strings(&["memory-viewers"]);
    let items = imported_rules("# Title\n\nBody.", &args).unwrap();
    assert_eq!(items[0].manifest.source_repo(), Some("memory-viewers"));
}

#[test]
fn default_sections_come_from_the_file_stem() {
    assert_eq!(default_section_from_path("docs/AGENTS.md"), "agents");
    assert_eq!(default_section_from_path("prompts/Spec Prompt.prompt.md"), "spec-prompt-prompt");
    assert_eq!(default_section_from_path("--Notes--.md"), "notes");
    assert_eq!(default_section_from_path(""), "imported");
}

#[test]
fn import_patch_keeps_the_imported_fields() {
    let mut manifest = RuleManifest::new("shared/a/one", "One", "AGENTS", "one", "Body.");
    manifest.set_source_location("repo", "AGENTS.md", 1, 3);
    let patch = import_patch(&manifest);
    let keys: Vec<&str> = patch.iter().map(|(k, _)| k.as_str()).collect();
    assert_eq!(
        keys,
        vec![
            "slug",
            "title",
            "file_kind",
            "section",
            "body",
            "order_key",
            "repo_scopes",
            "path_scopes",
            "source_repo",
            "source_path",
            "source_start_line",
            "source_end_line"
        ]
    );
    assert!(!keys.contains(&"state"));
}

#[test]
fn source_locations_are_set_whole() {
    let mut manifest = RuleManifest::new("shared/a/one", "One", "AGENTS", "one", "Body.");
    assert!(apply_source_location(&mut manifest, None, None, None, None).is_ok());
    assert_eq!(manifest.source_repo(), None);
    let err = apply_source_location(&mut manifest, Some("repo"), None, Some(1), None).unwrap_err();
    assert_eq!(
        err,
        "source location requires source_repo, source_path, source_start_line, and source_end_line together"
    );
    apply_source_location(&mut manifest, Some("repo"), Some("a.md"), Some(2), Some(4)).unwrap();
    assert_eq!(manifest.source_path(), Some("a.md"));
    assert_eq!(manifest.source_end_line(), Some(4));
}

#[test]
fn update_fields_split_at_the_first_equals_sign() {
    let parsed = parse_fields(&strings(&[" title = New Title ", "section=a=b"])).unwrap();
    assert_eq!(
        parsed,
        vec![
            ("title".to_string(), "New Title".to_string()),
            ("section".to_string(), "a=b".to_string())
        ]
    );
    let err = parse_fields(&strings(&["ok=1", "broken", "also-broken"])).unwrap_err();
    assert_eq!(err, "invalid field format 'broken', expected key=value");
}

use rule_api::cli::CreateArgs;
use rule_api::commands::create_manifest;

fn create_args() -> CreateArgs {
    CreateArgs {
        title: "Discovery Protocol".to_string(),
        slug: "shared/agents/discovery-protocol".to_string(),
        file_kind: "AGENTS".to_string(),
        section: "discovery".to_string(),
        body: Some("Use live sources first.".to_string()),
        body_file: None,
        repo_scope: strings(&["context-engine"]),
        path_scope: Vec::new(),
        order_key: Some(20),
        source_repo: None,
        source_path: None,
        source_start_line: None,
        source_end_line: None,
    }
}

#[test]
fn create_builds_the_described_draft() {
    let args = create_args();
    let manifest = create_manifest(&args, "Use live sources first.").unwrap();
    assert_eq!(manifest.slug(), Some("shared/agents/discovery-protocol"));
    assert_eq!(manifest.title(), Some("Discovery Protocol"));
    assert_eq!(manifest.state(), Some("draft"));
    assert_eq!(manifest.order_key(), Some(20));
    assert_eq!(manifest.repo_scopes(), strings(&["context-engine"]));
    assert!(manifest.path_scopes().is_empty());
    assert_eq!(manifest.source_repo(), None);

    let mut located = create_args();
    located.order_key = None;
    located.source_repo = Some("context-engine".to_string());
    located.source_path = Some("AGENTS.md".to_string());
    located.source_start_line = Some(3);
    located.source_end_line = Some(9);
    let manifest = create_manifest(&located, "Body.").unwrap();
    assert_eq!(manifest.order_key(), Some(0));
    assert_eq!(manifest.source_start_line(), Some(3));
    assert_eq!(manifest.body(), Some("Body."));

    let mut partial = create_args();
    partial.source_path = Some("AGENTS.md".to_string());
    let message = bad_request(create_manifest(&partial, "Body.").unwrap_err());
    assert_eq!(
        message,
        "source location requires source_repo, source_path, source_start_line, and source_end_line together"
    );
}
