use rule_api::error::RuleError;
use rule_api::manifest::JsonValue;
use rule_api::rule_index::{
    generated_target_slug, sanitize_slug_fragment, validate_slug, RuleIndex, SlugIndex,
};
use rule_api::target_rules::{collect_target_rules, explain_target};
use rule_api::targets_model::{RenderTarget, RenderTargetNode};
use rule_api::{RuleFilter, RuleManifest};

fn uuid_to_string(id: u128) -> String {
    uuid::Uuid::from_u128(id).to_string()
}

const HINT: &str = "run `rule scan`";

fn scoped(slug: &str, title: &str, section: &str, body: &str, order: Option<i64>) -> RuleManifest {
    let mut m = RuleManifest::new(slug, title, "AGENTS", section, body);
    m.set_repo_scopes(&vec!["context-engine".to_string()]);
    m.set_path_scopes(&vec!["AGENTS.md".to_string()]);
    if let Some(k) = order {
        m.set_order_key(k);
    }
    m
}

fn node(name: &str, title: Option<&str>, section: &str, nodes: Vec<RenderTargetNode>) -> RenderTargetNode {
    RenderTargetNode {
        name: name.to_string(),
        title: title.map(str::to_string),
        repo_scope: None,
        file_kind: None,
        path_scope: None,
        section: Some(section.to_string()),
        state: None,
        nodes,
    }
}

fn agents_target(nodes: Vec<RenderTargetNode>) -> RenderTarget {
    RenderTarget {
        name: "context-engine-agents".to_string(),
        repo_scope: "context-engine".to_string(),
        file_kind: "AGENTS".to_string(),
        path_scope: Some("AGENTS.md".to_string()),
        section: None,
        state: None,
        nodes,
        output_path: "AGENTS.md".to_string(),
        source_config_path: None,
        source_output_root: None,
    }
}

#[test]
fn create_and_get_rule_by_slug() {
    let mut index = RuleIndex::new();
    let manifest = RuleManifest::new(
        "shared/agents/discovery-protocol",
        "Discovery Protocol",
        "AGENTS",
        "discovery-protocol",
        "Use live sources first.",
    );

    let id = index.create(&manifest).unwrap();
    let fetched = index.get("shared/agents/discovery-protocol", HINT).unwrap();

    assert_eq!(fetched.id, id);
    assert_eq!(fetched.slug(), manifest.slug());
    assert_eq!(fetched.body(), manifest.body());
}

#[test]
fn create_rejects_bad_and_taken_slugs() {
    let mut index = RuleIndex::new();
    let first = RuleManifest::new("shared/agents/one", "One", "AGENTS", "one", "body");
    index.create(&first).unwrap();

    let taken = RuleManifest::new("shared/agents/one", "Other", "AGENTS", "one", "body");
    assert!(matches!(index.create(&taken), Err(RuleError::DuplicateSlug(ref s)) if s == "shared/agents/one"));

    let bad = RuleManifest::new("Shared/Agents", "Bad", "AGENTS", "x", "body");
    assert!(matches!(index.create(&bad), Err(RuleError::InvalidSlug(ref s)) if s == "Shared/Agents"));

    let mut no_slug = RuleManifest::new("x", "No Slug", "AGENTS", "x", "body");
    no_slug.remove_field("slug");
    assert!(matches!(index.create(&no_slug), Err(RuleError::InvalidSlug(ref s)) if s == "missing slug"));

    assert_eq!(index.entries.len(), 1);
}

#[test]
fn list_filters_and_sorts_rules_by_metadata() {
    let mut index = RuleIndex::new();

    let mut first = RuleManifest::new("shared/agents/discovery-protocol", "Discovery Protocol", "AGENTS", "discovery-protocol", "Use live sources first.");
    first.set_order_key(20);
    first.set_repo_scopes(&vec!["context-engine".to_string(), "memory-viewers".to_string()]);
    first.set_path_scopes(&vec![".agents/instructions/tests.instructions.md".to_string()]);
    first.set_feedback_summary(1, 0, 0, 1, 1, Some("2026-05-07T14:00:00Z"));

    let mut second = RuleManifest::new("shared/github/readme/overview", "Overview", ".github/README", "overview", "Project overview.");
    second.set_order_key(10);
    second.set_repo_scopes(&vec!["memory-api".to_string()]);
    second.set_path_scopes(&vec![".github/README.md".to_string()]);

    let mut third = RuleManifest::new("shared/agents/quality-gates", "Quality Gates", "AGENTS", "quality-gates", "Run relevant tests.");
    third.set_order_key(5);
    third.set_repo_scopes(&vec!["context-engine".to_string()]);
    third.set_path_scopes(&vec!["AGENTS.md".to_string()]);

    index.create(&first).unwrap();
    index.create(&second).unwrap();
    index.create(&third).unwrap();

    let filtered = index.list(
        &RuleFilter {
            file_kind: Some("AGENTS".to_string()),
            repo_scope: Some("context-engine".to_string()),
            path_scope: Some("AGENTS.md".to_string()),
            has_unresolved_feedback: Some(false),
            ..RuleFilter::default()
        },
        None,
    );

    assert_eq!(filtered.len(), 1);
    assert_eq!(filtered[0].slug(), Some("shared/agents/quality-gates"));

    let all = index.list(&RuleFilter::default(), None);
    let slugs = all.iter().map(|r| r.slug().unwrap().to_string()).collect::<Vec<_>>();
    assert_eq!(slugs, vec!["shared/agents/quality-gates", "shared/github/readme/overview", "shared/agents/discovery-protocol"]);
    assert_eq!(index.list(&RuleFilter::default(), Some(2)).len(), 2);
    assert_eq!(index.list(&RuleFilter { state: Some("draft".to_string()), ..RuleFilter::default() }, None).len(), 3);
    assert!(index.list(&RuleFilter { state: Some("adopted".to_string()), ..RuleFilter::default() }, None).is_empty());
}

#[test]
fn delete_rule_entry_removes_it_from_lookups() {
    let mut index = RuleIndex::new();
    let manifest = RuleManifest::new("shared/agents/delete-test", "Delete Test", "AGENTS", "delete-test", "Delete this rule entry.");
    index.create(&manifest).unwrap();

    index.delete("shared/agents/delete-test", HINT).unwrap();

    assert!(matches!(index.get("shared/agents/delete-test", HINT), Err(RuleError::NotFound(_))));
    assert!(index
        .list(&RuleFilter { slug: Some("shared/agents/delete-test".to_string()), ..RuleFilter::default() }, None)
        .is_empty());
}

#[test]
fn references_resolve_by_uuid_prefix_and_slug() {
    let mut index = RuleIndex::new();
    let manifest = RuleManifest::new("shared/agents/ref", "Ref", "AGENTS", "ref", "body");
    let id = index.create(&manifest).unwrap();
    let text = uuid_to_string(id);

    assert_eq!(index.resolve_id(&text, HINT).unwrap(), id);
    assert_eq!(index.resolve_id(&text[..8], HINT).unwrap(), id);
    assert_eq!(index.resolve_id("shared/agents/ref", HINT).unwrap(), id);
    assert!(matches!(
        index.resolve_id("shared/agents/missing", HINT),
        Err(RuleError::NotFound(ref m)) if m == "shared/agents/missing; run `rule scan`"
    ));
    let unknown = "00000000-0000-4000-8000-000000000000";
    assert!(matches!(index.get(unknown, HINT), Err(RuleError::NotFound(ref m)) if m == unknown));
}

#[test]
fn slug_index_keeps_the_last_assignment() {
    let mut slugs = SlugIndex::new();
    slugs.insert("a".to_string(), 1);
    slugs.insert("b".to_string(), 2);
    slugs.insert("a".to_string(), 3);
    assert_eq!(slugs.get("a"), Some(3));
    slugs.remove("a");
    assert_eq!(slugs.get("a"), None);
    assert_eq!(slugs.get("b"), Some(2));
}

#[test]
fn slugs_are_validated_and_fragments_sanitized() {
    assert!(validate_slug("shared/agents/a-b_c.d9").is_ok());
    assert!(matches!(validate_slug(""), Err(RuleError::InvalidSlug(ref m)) if m == "slug cannot be empty"));
    assert!(matches!(validate_slug("has space"), Err(RuleError::InvalidSlug(ref m)) if m == "has space"));
    assert_eq!(sanitize_slug_fragment("/Repo/Rule Targets.yaml"), "/repo/rule-targets.yaml");
    let slug = generated_target_slug("C:/Work/rule-targets.yaml", "Agents README");
    assert_eq!(slug, "generated-targets/c-/work/rule-targets.yaml/agents-readme");
    assert!(validate_slug(&slug).is_ok());
}

#[test]
fn generated_target_records_round_trip_and_delete() {
    let mut index = RuleIndex::new();
    let record = index
        .upsert_generated_target("/tmp/w/rule-targets.yaml", "context-engine-github-readme", "/tmp/w/.github/README.md")
        .unwrap();

    let listed = index.list_generated_targets("/tmp/w/rule-targets.yaml");
    assert_eq!(listed.len(), 1);
    assert_eq!(listed[0].id, record.id);
    assert_eq!(listed[0].slug, record.slug);
    assert_eq!(listed[0].output_path, record.output_path);
    assert_eq!(listed[0].target_name, "context-engine-github-readme");

    index.delete_generated_target(&record.slug, HINT).unwrap();
    assert!(index.list_generated_targets("/tmp/w/rule-targets.yaml").is_empty());
}

#[test]
fn delete_can_remove_generated_target_records() {
    let mut index = RuleIndex::new();
    let record = index
        .upsert_generated_target("/tmp/w/rule-targets.yaml", "context-engine-github-readme", "/tmp/w/.github/README.md")
        .unwrap();

    index.delete(&record.slug, HINT).unwrap();

    assert!(index.list_generated_targets("/tmp/w/rule-targets.yaml").is_empty());
}

#[test]
fn generated_target_upsert_updates_existing_output_path() {
    let mut index = RuleIndex::new();
    let created = index
        .upsert_generated_target("/tmp/w/rule-targets.yaml", "github-readme", "/tmp/w/memory-viewers/.github/README.md")
        .unwrap();
    let updated = index
        .upsert_generated_target("/tmp/w/rule-targets.yaml", "github-readme", "/tmp/w/.github/README.md")
        .unwrap();

    assert_eq!(created.id, updated.id);
    assert_ne!(created.output_path, updated.output_path);
    assert_eq!(index.list_generated_targets("/tmp/w/rule-targets.yaml")[0].output_path, updated.output_path);
    assert_eq!(index.entries.len(), 1);
}

#[test]
fn generated_target_slugs_cannot_take_over_rules() {
    let mut index = RuleIndex::new();
    let slug = generated_target_slug("/tmp/w/rule-targets.yaml", "x");
    let rule = RuleManifest::new(&slug, "Rule", "AGENTS", "s", "b");
    index.create(&rule).unwrap();
    assert!(matches!(
        index.upsert_generated_target("/tmp/w/rule-targets.yaml", "x", "out.md"),
        Err(RuleError::DuplicateSlug(ref s)) if *s == slug
    ));
    assert!(matches!(index.delete_generated_target(&slug, HINT), Err(RuleError::NotFound(ref s)) if *s == slug));
}

#[test]
fn generated_records_are_listed_by_target_name_with_forward_slashes() {
    let mut index = RuleIndex::new();
    index.upsert_generated_target("C:\\w\\rule-targets.yaml", "zeta", "C:\\w\\z.md").unwrap();
    index.upsert_generated_target("C:/w/rule-targets.yaml", "alpha", "C:\\w\\a.md").unwrap();
    let listed = index.list_generated_targets("C:\\w\\rule-targets.yaml");
    let names = listed.iter().map(|r| r.target_name.as_str()).collect::<Vec<_>>();
    assert_eq!(names, vec!["alpha", "zeta"]);
    assert_eq!(listed[0].output_path, "C:/w/a.md");
    assert_eq!(listed[0].config_path, "C:/w/rule-targets.yaml");
}

#[test]
fn rebuilt_slug_index_names_every_entry() {
    let mut index = RuleIndex::new();
    let a = RuleManifest::new("shared/a", "A", "AGENTS", "a", "b");
    let id = index.create(&a).unwrap();
    index.slugs = SlugIndex::new();
    assert!(index.get("shared/a", HINT).is_err());
    index.rebuild_slug_index();
    assert_eq!(index.get("shared/a", HINT).unwrap().id, id);
}

// ── tests_collect ───────────────────────────────────────────────────────────

#[test]
fn collect_target_rules_traverses_nodes_in_outline_order() {
    let mut index = RuleIndex::new();
    index.create(&scoped("shared/agents/opening", "Opening", "opening", "Start with the concrete anchor.", Some(20))).unwrap();
    index.create(&scoped("shared/agents/validation", "Validation", "opening/validation", "Run the focused check next.", Some(10))).unwrap();
    index.create(&scoped("shared/agents/quality-gates", "Quality Gates", "quality-gates", "Run relevant tests before completion.", Some(5))).unwrap();

    let target = agents_target(vec![
        node("opening", Some("Opening"), "opening", vec![node("validation", Some("Validation"), "opening/validation", Vec::new())]),
        node("quality-gates", Some("Quality Gates"), "quality-gates", Vec::new()),
    ]);

    let rules = collect_target_rules(&index, &target).unwrap();
    let slugs = rules.iter().map(|rule| rule.slug().unwrap().to_string()).collect::<Vec<_>>();

    assert_eq!(
        slugs,
        vec![
            "shared/agents/opening".to_string(),
            "shared/agents/validation".to_string(),
            "shared/agents/quality-gates".to_string(),
        ]
    );
}

#[test]
fn collect_target_rules_rejects_duplicate_matches_across_nodes() {
    let mut index = RuleIndex::new();
    index.create(&scoped("shared/agents/opening", "Opening", "opening", "Start with the concrete anchor.", None)).unwrap();

    let target = agents_target(vec![
        node("first", None, "opening", Vec::new()),
        node("second", None, "opening", Vec::new()),
    ]);

    let err = collect_target_rules(&index, &target).unwrap_err();
    assert!(matches!(
        err,
        RuleError::DuplicateRenderRule { target, node, slug }
        if target == "context-engine-agents" && node == "second" && slug == "shared/agents/opening"
    ));
}

#[test]
fn explain_target_reports_node_matches_with_effective_filters() {
    let mut index = RuleIndex::new();
    index.create(&scoped("shared/agents/opening", "Opening", "agent-rules/operating-principles", "Gather context before coding.", Some(10))).unwrap();

    let target = agents_target(vec![node(
        "agent-rules",
        Some("Agent Rules"),
        "agent-rules",
        vec![node("operating-principles", Some("Operating Principles"), "agent-rules/operating-principles", Vec::new())],
    )]);

    let explained = explain_target(&index, &target).unwrap();

    assert_eq!(explained.name, "context-engine-agents");
    assert_eq!(explained.matched_rule_count, 1);
    assert_eq!(explained.nodes.len(), 1);
    assert_eq!(explained.nodes[0].nodes.len(), 1);
    assert_eq!(explained.nodes[0].nodes[0].effective_filter.section.as_deref(), Some("agent-rules/operating-principles"));
    assert_eq!(explained.nodes[0].nodes[0].matched_rules.len(), 1);
    assert_eq!(explained.nodes[0].nodes[0].matched_rules[0].slug, "shared/agents/opening");
    assert_eq!(explained.nodes[0].nodes[0].matched_rules[0].order_key, Some(10));
}

#[test]
fn a_target_without_nodes_collects_under_its_own_filter() {
    let mut index = RuleIndex::new();
    index.create(&scoped("shared/agents/b", "B", "x", "b", Some(2))).unwrap();
    index.create(&scoped("shared/agents/a", "A", "y", "a", Some(2))).unwrap();
    let target = agents_target(Vec::new());
    let rules = collect_target_rules(&index, &target).unwrap();
    let slugs = rules.iter().map(|rule| rule.slug().unwrap().to_string()).collect::<Vec<_>>();
    assert_eq!(slugs, vec!["shared/agents/a", "shared/agents/b"]);
    let explained = explain_target(&index, &target).unwrap();
    assert_eq!(explained.matched_rule_count, rules.len());
}

#[test]
fn slug_patch_rekeys_the_slug_index() {
    let mut index = RuleIndex::new();
    let first = index.create(&RuleManifest::new("a/one", "One", "AGENTS", "one", "Body.")).unwrap();
    let second = index.create(&RuleManifest::new("a/two", "Two", "AGENTS", "two", "Body.")).unwrap();

    let patch = vec![("slug".to_string(), JsonValue::string("a/renamed"))];
    index.apply_slug_patch(first, &patch).unwrap();
    assert_eq!(index.slugs.get("a/renamed"), Some(first));
    assert_eq!(index.slugs.get("a/one"), None);
    assert_eq!(index.resolve_id("a/renamed", HINT).unwrap(), first);

    let taken = vec![("slug".to_string(), JsonValue::string("a/two"))];
    match index.apply_slug_patch(first, &taken) {
        Err(RuleError::DuplicateSlug(s)) => assert_eq!(s, "a/two"),
        other => panic!("unexpected result: {other:?}"),
    }
    assert_eq!(index.slugs.get("a/two"), Some(second));

    let invalid = vec![("slug".to_string(), JsonValue::string("Bad Slug"))];
    assert!(matches!(index.apply_slug_patch(first, &invalid), Err(RuleError::InvalidSlug(_))));

    let untouched = vec![("title".to_string(), JsonValue::string("New"))];
    index.apply_slug_patch(first, &untouched).unwrap();
    assert_eq!(index.slugs.get("a/renamed"), Some(first));
}

#[test]
fn open_rebuilds_slug_index_for_fresh_processes() {
    let mut store = RuleIndex::new();
    let manifest = RuleManifest::new(
        "shared/agents/reopen-test",
        "Reopen Test",
        "AGENTS",
        "operating-principles",
        "Persist slug lookup across store instances.",
    );
    store.create(&manifest).unwrap();

    let mut reopened = RuleIndex { entries: store.entries, slugs: SlugIndex::new() };
    reopened.rebuild_slug_index();
    let fetched = reopened.get("shared/agents/reopen-test", HINT).unwrap();

    assert_eq!(fetched.slug(), Some("shared/agents/reopen-test"));
}

#[test]
fn updated_body_is_read_back() {
    let mut index = RuleIndex::new();
    index.create(&RuleManifest::new("shared/agents/update-test", "Update Test", "AGENTS", "update-test", "Initial body.")).unwrap();
    index.update_body("shared/agents/update-test", "Updated body.", HINT).unwrap();
    let fetched = index.get("shared/agents/update-test", HINT).unwrap();
    assert_eq!(fetched.body(), Some("Updated body."));
    assert_eq!(fetched.title(), Some("Update Test"));
    assert!(matches!(index.update_body("missing/rule", "x", HINT), Err(RuleError::NotFound(_))));
}
