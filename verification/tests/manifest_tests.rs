use rule_api::manifest::{JsonValue, RuleState};
use rule_api::no_match::{emit_missing_rule_match_signal};
use rule_api::{RuleFilter, RuleManifest};

#[test]
fn new_manifest_sets_uuid_and_slug_fields() {
    let manifest = RuleManifest::new(
        "shared/agents/discovery-protocol",
        "Discovery Protocol",
        "agents",
        "discovery-protocol",
        "Use live sources first.",
    );

    assert_eq!(manifest.slug(), Some("shared/agents/discovery-protocol"));
    assert_eq!(manifest.title(), Some("Discovery Protocol"));
    assert_eq!(manifest.file_kind(), Some("agents"));
    assert_eq!(manifest.section(), Some("discovery-protocol"));
    assert_eq!(manifest.state(), Some("draft"));
    assert!(manifest.id != 0);
}

#[test]
fn manifest_supports_rule_metadata_fields() {
    let mut manifest = RuleManifest::new(
        "shared/github/readme/overview",
        "Overview",
        ".github/README",
        "overview",
        "Canonical project overview.",
    );
    manifest.set_order_key(20);
    manifest.set_repo_scopes(&vec!["context-engine".to_string(), "memory-api".to_string()]);
    manifest.set_path_scopes(&vec![".github/**".to_string(), "AGENTS.md".to_string()]);
    manifest.set_sentence_anchors(&vec!["p1-s1".to_string(), "p1-s2".to_string()]);
    manifest.set_source_location("context-engine", ".github/README.md", 4, 12);
    manifest.set_feedback_summary(3, 1, 0, 2, 1, Some("2026-05-07T14:00:00Z"));

    assert_eq!(manifest.order_key(), Some(20));
    assert_eq!(manifest.repo_scopes(), vec!["context-engine", "memory-api"]);
    assert_eq!(manifest.path_scopes(), vec![".github/**", "AGENTS.md"]);
    assert_eq!(manifest.sentence_anchors(), vec!["p1-s1", "p1-s2"]);
    assert_eq!(manifest.source_repo(), Some("context-engine"));
    assert_eq!(manifest.source_path(), Some(".github/README.md"));
    assert_eq!(manifest.source_start_line(), Some(4));
    assert_eq!(manifest.source_end_line(), Some(12));
    assert_eq!(manifest.feedback_helpful_count(), Some(3));
    assert_eq!(manifest.feedback_unresolved_count(), Some(1));
    assert_eq!(manifest.feedback_last_at(), Some("2026-05-07T14:00:00Z"));
}

#[test]
fn clearing_the_feedback_time_removes_it() {
    let mut manifest = RuleManifest::new("a/b", "T", "AGENTS", "s", "b");
    manifest.set_feedback_summary(1, 0, 0, 0, 0, Some("2026-05-07T14:00:00Z"));
    manifest.set_feedback_summary(1, 0, 0, 0, 0, None);
    assert_eq!(manifest.feedback_last_at(), None);
    assert_eq!(manifest.feedback_helpful_count(), Some(1));
}

#[test]
fn fields_are_read_back_by_kind() {
    let mut manifest = RuleManifest::new("a/b", "T", "AGENTS", "s", "b");
    manifest.insert_field("order_key", JsonValue::string("not a number"));
    assert_eq!(manifest.order_key(), None);
    manifest.insert_field("order_key", JsonValue::integer(-7));
    assert_eq!(manifest.order_key(), Some(-7));
    manifest.remove_field("order_key");
    assert_eq!(manifest.get_i64("order_key"), None);
    manifest.set_state(RuleState::Adopted);
    assert_eq!(manifest.state(), Some("adopted"));
    manifest.set_body("New body.");
    assert_eq!(manifest.body(), Some("New body."));
}

#[test]
fn duplicate_keeps_id_and_fields() {
    let manifest = RuleManifest::new("a/b", "T", "AGENTS", "s", "b");
    let copy = manifest.duplicate();
    assert_eq!(copy.id, manifest.id);
    assert_eq!(copy.created_at, manifest.created_at);
    assert_eq!(copy.slug(), manifest.slug());
    assert_eq!(copy.body(), manifest.body());
}

#[test]
fn matches_low_feedback_for_mixed_and_not_helpful_rules() {
    let mut rule = RuleManifest::new("shared/agents/feedback", "Feedback", "AGENTS", "feedback", "body");
    rule.set_feedback_summary(0, 1, 0, 0, 0, Some("2026-05-12T00:00:00Z"));

    assert!(RuleFilter { has_low_feedback: Some(true), ..RuleFilter::default() }.matches(&rule));
    assert!(!RuleFilter { has_low_feedback: Some(false), ..RuleFilter::default() }.matches(&rule));
}

#[test]
fn filter_criteria_must_all_hold() {
    let mut rule = RuleManifest::new("shared/agents/scoped", "Scoped", "AGENTS", "scoped", "body");
    rule.set_repo_scopes(&vec!["context-engine".to_string()]);
    rule.set_path_scopes(&vec!["AGENTS.md".to_string()]);
    let all = RuleFilter {
        file_kind: Some("AGENTS".to_string()),
        section: Some("scoped".to_string()),
        repo_scope: Some("context-engine".to_string()),
        path_scope: Some("AGENTS.md".to_string()),
        slug: Some("shared/agents/scoped".to_string()),
        ..RuleFilter::default()
    };
    assert!(all.matches(&rule));
    let wrong_repo = RuleFilter { repo_scope: Some("memory-api".to_string()), ..RuleFilter::default() };
    assert!(!wrong_repo.matches(&rule));
    let unresolved = RuleFilter { has_unresolved_feedback: Some(true), ..RuleFilter::default() };
    assert!(!unresolved.matches(&rule));
}

#[test]
fn emits_signal_only_when_no_rule_matches() {
    let context_tags = vec!["policy".to_string()];

    let no_match = emit_missing_rule_match_signal("query".to_string(), &context_tags, false).expect("signal");
    assert!(no_match.indicates_no_match());
    assert_eq!(no_match.query, "query");
    assert_eq!(no_match.context_tags, context_tags);

    assert!(emit_missing_rule_match_signal("query".to_string(), &context_tags, true).is_none());
}

#[test]
fn rule_states_have_their_names() {
    assert_eq!(RuleState::Draft.as_str(), "draft");
    assert_eq!(RuleState::Reviewed.as_str(), "reviewed");
    assert_eq!(RuleState::Adopted.as_str(), "adopted");
    assert_eq!(RuleState::Deprecated.as_str(), "deprecated");
}
