use rule_api::cli::CliRunError;
use rule_api::rule_index::GeneratedTargetRecord;
use rule_api::sync_targets::{
    collect_stale_generated_targets, ensure_no_zero_match_targets, is_spec_doc_target,
    plan_stale_targets, previous_target_cleanup, sync_target_outcome, CollectedTarget, OutputState,
    StaleAction,
};
use rule_api::targets_model::{RenderTarget, RenderTargetConfig};

fn target(name: &str, file_kind: &str, output: &str) -> RenderTarget {
    RenderTarget {
        name: name.to_string(),
        repo_scope: "context-engine".to_string(),
        file_kind: file_kind.to_string(),
        path_scope: None,
        section: None,
        state: None,
        nodes: Vec::new(),
        output_path: output.to_string(),
        source_config_path: None,
        source_output_root: None,
    }
}

fn record(name: &str, output: &str) -> GeneratedTargetRecord {
    GeneratedTargetRecord {
        id: 7,
        slug: format!("generated-targets/cfg/{name}"),
        config_path: "rule-targets/cfg.yaml".to_string(),
        target_name: name.to_string(),
        output_path: output.to_string(),
    }
}

fn collected(name: &str, output: &str, count: usize) -> CollectedTarget {
    CollectedTarget { name: name.to_string(), output: output.to_string(), count }
}

fn bad_request(error: CliRunError) -> String {
    match error {
        CliRunError::BadRequest(message) => message,
        other => panic!("unexpected error: {other:?}"),
    }
}

#[test]
fn zero_match_targets_refuse_writes_only() {
    let targets = vec![collected("a", "A.md", 2), collected("b", "B.md", 0), collected("c", "C.md", 0)];
    let message = bad_request(ensure_no_zero_match_targets(&targets, false, false).unwrap_err());
    assert_eq!(
        message,
        "refusing to overwrite generated outputs because these targets matched zero rules: b -> B.md, c -> C.md"
    );
    assert!(ensure_no_zero_match_targets(&targets, true, false).is_ok());
    assert!(ensure_no_zero_match_targets(&targets, false, true).is_ok());
    assert!(ensure_no_zero_match_targets(&vec![collected("a", "A.md", 1)], false, false).is_ok());
}

#[test]
fn unchanged_markdown_output_is_not_rewritten() {
    let state = OutputState::Markdown { existing: Ok("same\n".to_string()), prepared: "same\n".to_string() };
    let outcome = sync_target_outcome("agents", "AGENTS.md", 2, false, false, "same\n", &state).unwrap();
    assert_eq!(outcome.count, 2);
    assert!(!outcome.changed);
    assert!(!outcome.write);
    assert_eq!(outcome.content, None);
}

#[test]
fn changed_markdown_output_is_written_and_previewed() {
    let state = OutputState::Markdown { existing: Ok("old\n".to_string()), prepared: "new\n".to_string() };
    let written = sync_target_outcome("agents", "AGENTS.md", 1, false, false, "new\n", &state).unwrap();
    assert!(written.changed && written.write);

    let preview = sync_target_outcome("agents", "AGENTS.md", 1, true, false, "new\n", &state).unwrap();
    assert!(preview.changed && !preview.write);
    assert_eq!(preview.content.as_deref(), Some("new\n"));

    let missing = OutputState::Markdown { existing: Err("not found".to_string()), prepared: "new\n".to_string() };
    let created = sync_target_outcome("agents", "AGENTS.md", 1, false, false, "new\n", &missing).unwrap();
    assert!(created.changed && created.write);
}

#[test]
fn check_mode_reports_differing_or_unreadable_output() {
    let state = OutputState::Markdown { existing: Ok("old\n".to_string()), prepared: "new\n".to_string() };
    let message = bad_request(sync_target_outcome("agents", "AGENTS.md", 1, false, true, "new\n", &state).unwrap_err());
    assert_eq!(message, "generated output differs from AGENTS.md");

    let missing = OutputState::Markdown { existing: Err("gone".to_string()), prepared: "new\n".to_string() };
    let message = bad_request(sync_target_outcome("agents", "AGENTS.md", 1, false, true, "new\n", &missing).unwrap_err());
    assert_eq!(message, "read generated file AGENTS.md: gone");

    let clean = OutputState::Markdown { existing: Ok("new\n".to_string()), prepared: "new\n".to_string() };
    let outcome = sync_target_outcome("agents", "AGENTS.md", 0, false, true, "new\n", &clean).unwrap();
    assert!(!outcome.changed && !outcome.write);
}

#[test]
fn writing_a_target_without_rules_is_refused() {
    let state = OutputState::Markdown { existing: Ok(String::new()), prepared: String::new() };
    let message = bad_request(sync_target_outcome("agents", "AGENTS.md", 0, false, false, "", &state).unwrap_err());
    assert_eq!(message, "refusing to write generated output AGENTS.md for target agents: matched zero rules");
}

#[test]
fn spec_document_outputs_follow_the_spec_store() {
    let differs = OutputState::SpecDocument { matches: false };
    let outcome = sync_target_outcome("summary", "summary.md", 1, false, false, "text", &differs).unwrap();
    assert!(outcome.changed && outcome.write);
    let message = bad_request(sync_target_outcome("summary", "summary.md", 1, false, true, "text", &differs).unwrap_err());
    assert_eq!(message, "generated output differs from summary.md");
    let same = OutputState::SpecDocument { matches: true };
    let outcome = sync_target_outcome("summary", "summary.md", 1, false, false, "text", &same).unwrap();
    assert!(!outcome.changed && !outcome.write);
    assert!(is_spec_doc_target(&target("summary", "spec-doc", "summary.md")));
    assert!(!is_spec_doc_target(&target("agents", "AGENTS", "AGENTS.md")));
}

#[test]
fn stale_records_are_those_no_longer_configured() {
    let config = RenderTargetConfig { targets: vec![target("kept", "AGENTS", "AGENTS.md")] };
    let previous = vec![record("kept", "AGENTS.md"), record("gone", "OLD.md"), record("also-gone", "X.md")];
    let stale = collect_stale_generated_targets(&config, previous);
    let names: Vec<&str> = stale.iter().map(|r| r.target_name.as_str()).collect();
    assert_eq!(names, vec!["gone", "also-gone"]);
}

#[test]
fn sync_targets_prunes_removed_outputs_and_decoupled_records() {
    let stale = vec![record("gone", "OLD.md"), record("hand-owned", "HAND.md")];
    let orphaned = vec![true, false];
    let plan = plan_stale_targets("cfg.yaml", &stale, &orphaned, false, false).unwrap();
    assert_eq!(plan.removed.len(), 2);
    assert_eq!(plan.removed[0].target, "gone");
    assert!(!plan.removed[0].decoupled);
    assert_eq!(plan.removed[1].output, "HAND.md");
    assert!(plan.removed[1].decoupled);
    match &plan.actions[0] {
        StaleAction::RemoveOutput { output, slug } => {
            assert_eq!(output, "OLD.md");
            assert_eq!(slug, "generated-targets/cfg/gone");
        }
        StaleAction::DropRecord { .. } => panic!("expected the output to be removed"),
    }
    assert!(matches!(&plan.actions[1], StaleAction::DropRecord { slug } if slug == "generated-targets/cfg/hand-owned"));

    let preview = plan_stale_targets("cfg.yaml", &stale, &orphaned, true, false).unwrap();
    assert!(preview.actions.is_empty());
    assert_eq!(preview.removed.len(), 2);
}

#[test]
fn check_fails_on_stale_generated_outputs_but_tolerates_decoupled_ones() {
    let stale = vec![record("gone", "OLD.md"), record("hand-owned", "HAND.md")];
    let message = bad_request(plan_stale_targets("cfg.yaml", &stale, &vec![true, false], false, true).unwrap_err());
    assert_eq!(message, "stale generated targets remain for cfg.yaml: gone -> OLD.md");

    let plan = plan_stale_targets("cfg.yaml", &stale, &vec![false, false], false, true).unwrap();
    assert!(plan.actions.is_empty());
    assert!(plan.removed.iter().all(|r| r.decoupled));
}

#[test]
fn moved_outputs_are_cleaned_up_unless_still_written() {
    let previous = vec![record("agents", "OLD/AGENTS.md")];
    let agents = target("agents", "AGENTS", "AGENTS.md");
    let cleanup = previous_target_cleanup(&agents, &previous, &vec!["AGENTS.md".to_string()], "AGENTS.md");
    assert_eq!(cleanup.remove_output.as_deref(), Some("OLD/AGENTS.md"));
    assert_eq!(cleanup.delete_record, None);

    let still_written = vec!["AGENTS.md".to_string(), "OLD/AGENTS.md".to_string()];
    let cleanup = previous_target_cleanup(&agents, &previous, &still_written, "AGENTS.md");
    assert_eq!(cleanup.remove_output, None);

    let spec = target("agents", "spec-doc", "AGENTS.md");
    let cleanup = previous_target_cleanup(&spec, &previous, &still_written, "OLD/AGENTS.md");
    assert_eq!(cleanup.remove_output, None);
    assert_eq!(cleanup.delete_record.as_deref(), Some("generated-targets/cfg/agents"));

    let unknown = target("other", "AGENTS", "X.md");
    let cleanup = previous_target_cleanup(&unknown, &previous, &still_written, "X.md");
    assert!(cleanup.remove_output.is_none() && cleanup.delete_record.is_none());
}

use rule_api::sync_targets::{generated_file_comment, is_generated_output, is_orphaned_generated, removal_check};

#[test]
fn generated_outputs_are_recognised_by_their_marker() {
    assert_eq!(generated_file_comment(), "<!-- rule-api:file generated=true -->");
    assert!(is_generated_output("<!-- rule-api:file generated=true -->\n\nBody.\n"));
    assert!(!is_generated_output("# Hand-owned\n"));
    assert!(is_orphaned_generated(&Ok("<!-- rule-api:file generated=true -->\n".to_string())));
    assert!(!is_orphaned_generated(&Ok("hand-owned".to_string())));
    assert!(!is_orphaned_generated(&Err("missing".to_string())));
}

#[test]
fn only_generated_outputs_are_removed() {
    assert!(!removal_check("OLD.md", &None).unwrap());
    assert!(removal_check("OLD.md", &Some(Ok("<!-- rule-api:file generated=true -->\nx".to_string()))).unwrap());
    let message = bad_request(removal_check("OLD.md", &Some(Ok("mine".to_string()))).unwrap_err());
    assert_eq!(message, "refusing to remove non-generated file OLD.md");
    let message = bad_request(removal_check("OLD.md", &Some(Err("denied".to_string()))).unwrap_err());
    assert_eq!(message, "read generated file OLD.md: denied");
}

#[test]
fn a_second_sync_of_a_written_output_changes_nothing() {
    let first = OutputState::Markdown { existing: Ok("old\n".to_string()), prepared: "new\n".to_string() };
    let written = sync_target_outcome("agents", "AGENTS.md", 1, false, false, "new\n", &first).unwrap();
    assert!(written.changed && written.write);

    let second = OutputState::Markdown { existing: Ok("new\n".to_string()), prepared: "new\n".to_string() };
    let again = sync_target_outcome("agents", "AGENTS.md", 1, false, false, "new\n", &second).unwrap();
    assert!(!again.changed && !again.write);

    let spec_doc = OutputState::SpecDocument { matches: true };
    let again = sync_target_outcome("design", "docs/design.md", 3, false, false, "doc\n", &spec_doc).unwrap();
    assert!(!again.changed && !again.write);
}

#[test]
fn a_second_sync_of_every_settled_target_changes_nothing() {
    let targets = vec![collected("agents", "AGENTS.md", 2), collected("guide", "docs/guide.md", 1)];
    assert!(ensure_no_zero_match_targets(&targets, false, false).is_ok());
    let states = vec![
        OutputState::Markdown { existing: Ok("a\n".to_string()), prepared: "a\n".to_string() },
        OutputState::SpecDocument { matches: true },
    ];
    for (t, state) in targets.iter().zip(states.iter()) {
        let outcome = sync_target_outcome(&t.name, &t.output, t.count, false, false, "a\n", state).unwrap();
        assert!(!outcome.changed && !outcome.write);
    }
}
