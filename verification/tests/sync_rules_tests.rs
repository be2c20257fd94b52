use rule_api::cli::CliRunError;
use rule_api::rule_index::RuleIndex;
use rule_api::sync_rules::{sync_rules_entries, ParsedGeneratedEntry};
use rule_api::RuleManifest;

fn uuid_to_string(id: u128) -> String {
    uuid::Uuid::from_u128(id).to_string()
}

fn sample_rule(slug: &str, title: &str, section: &str, body: &str, order_key: i64) -> RuleManifest {
    let mut rule = RuleManifest::new(slug, title, "AGENTS", section, body);
    rule.set_order_key(order_key);
    rule.set_repo_scopes(&vec!["context-engine".to_string()]);
    rule
}

fn entry(id: &str, slug: Option<&str>, body: &str) -> ParsedGeneratedEntry {
    ParsedGeneratedEntry {
        id: id.to_string(),
        slug: slug.map(str::to_string),
        body: body.to_string(),
    }
}

fn body_of(index: &RuleIndex, id: &str) -> Option<String> {
    index.get(id, "").unwrap().body().map(str::to_string)
}

fn bad_request(error: CliRunError) -> String {
    match error {
        CliRunError::BadRequest(message) => message,
        other => panic!("unexpected error: {other:?}"),
    }
}

#[test]
fn sync_rules_uses_marker_id_as_authoritative_and_ignores_slug_edits() {
    let mut index = RuleIndex::new();
    let rule = sample_rule("shared/agents/reverse-sync", "Reverse Sync", "reverse-sync", "Original body.", 10);
    let id = uuid_to_string(index.create(&rule).unwrap());

    let parsed = vec![entry(&id, Some("edited/slug"), "Updated from generated artifact.")];
    let report = sync_rules_entries(&mut index, "generated.md", &parsed, false, false).unwrap();

    assert_eq!(report.changed, 1);
    assert!(report.entries[0].slug_mismatch);
    assert_eq!(report.entries[0].canonical_slug.as_deref(), Some("shared/agents/reverse-sync"));
    assert_eq!(body_of(&index, &id).as_deref(), Some("Updated from generated artifact."));
}

#[test]
fn sync_rules_check_reports_drift_without_writing() {
    let mut index = RuleIndex::new();
    let rule = sample_rule("shared/agents/check-mode", "Check Mode", "check-mode", "Original body.", 10);
    let id = uuid_to_string(index.create(&rule).unwrap());

    let parsed = vec![entry(&id, Some("shared/agents/check-mode"), "Changed body.")];
    let message = bad_request(sync_rules_entries(&mut index, "generated.md", &parsed, false, true).unwrap_err());

    assert!(message.contains("drift"));
    assert_eq!(message, "reverse-sync drift detected for generated.md: 1 entries would change");
    assert_eq!(body_of(&index, &id).as_deref(), Some("Original body."));
}

#[test]
fn sync_rules_unknown_id_error_keeps_existing_entries_unchanged() {
    let mut index = RuleIndex::new();
    let rule = sample_rule("shared/agents/atomicity", "Atomicity", "atomicity", "Original body.", 10);
    let id = uuid_to_string(index.create(&rule).unwrap());

    let parsed = vec![
        entry(&id, Some("shared/agents/atomicity"), "Changed body."),
        entry("00000000-0000-0000-0000-000000000999", Some("missing/rule"), "Missing body."),
    ];
    let message = bad_request(sync_rules_entries(&mut index, "generated.md", &parsed, false, false).unwrap_err());

    assert!(message.contains("orphan generated entry ids"));
    assert_eq!(
        message,
        "orphan generated entry ids not found in store: 00000000-0000-0000-0000-000000000999"
    );
    assert_eq!(body_of(&index, &id).as_deref(), Some("Original body."));
}

#[test]
fn sync_rules_rejects_spec_doc_entries() {
    let mut index = RuleIndex::new();
    let mut rule = RuleManifest::new(
        "memory-api/recurring-principles/summary",
        "Summary",
        "spec-doc",
        "summary",
        "## Summary\ntext\n",
    );
    rule.set_repo_scopes(&vec!["memory-api".to_string()]);
    let id = uuid_to_string(index.create(&rule).unwrap());

    let parsed = vec![entry(&id, Some("memory-api/recurring-principles/summary"), "## Summary\nchanged")];
    let message = bad_request(sync_rules_entries(&mut index, "generated.md", &parsed, false, false).unwrap_err());

    assert!(message.contains("spec-doc"));
    assert_eq!(message, format!("reverse-sync of spec-doc artifacts is not supported: {id}"));
    assert_eq!(body_of(&index, &id).as_deref(), Some("## Summary\ntext\n"));
}

#[test]
fn sync_rules_rejects_check_with_dry_run() {
    let mut index = RuleIndex::new();
    let message = bad_request(sync_rules_entries(&mut index, "generated.md", &Vec::new(), true, true).unwrap_err());
    assert_eq!(message, "choose either --check or --dry-run");
}

#[test]
fn sync_rules_dry_run_reports_changes_without_writing() {
    let mut index = RuleIndex::new();
    let first = uuid_to_string(index.create(&sample_rule("a/one", "One", "one", "Same.", 1)).unwrap());
    let second = uuid_to_string(index.create(&sample_rule("a/two", "Two", "two", "Old.", 2)).unwrap());

    let parsed = vec![entry(&first, Some("a/one"), "Same."), entry(&second, None, "New.")];
    let report = sync_rules_entries(&mut index, "out\\generated.md", &parsed, true, false).unwrap();

    assert_eq!(report.file, "out/generated.md");
    assert_eq!(report.changed, 1);
    assert!(!report.entries[0].changed);
    assert!(report.entries[1].changed);
    assert!(!report.entries[1].slug_mismatch);
    assert_eq!(report.entries[1].current_body, "Old.");
    assert_eq!(body_of(&index, &second).as_deref(), Some("Old."));
}

#[test]
fn sync_rules_second_run_finds_nothing_to_change() {
    let mut index = RuleIndex::new();
    let first = uuid_to_string(index.create(&sample_rule("a/one", "One", "one", "Old one.", 1)).unwrap());
    let second = uuid_to_string(index.create(&sample_rule("a/two", "Two", "two", "Old two.", 2)).unwrap());

    let parsed = vec![entry(&first, None, "New one."), entry("a/two", None, "New two.")];
    let report = sync_rules_entries(&mut index, "generated.md", &parsed, false, false).unwrap();
    assert_eq!(report.changed, 2);
    assert_eq!(body_of(&index, &second).as_deref(), Some("New two."));

    let again = sync_rules_entries(&mut index, "generated.md", &parsed, false, true).unwrap();
    assert_eq!(again.changed, 0);
}
