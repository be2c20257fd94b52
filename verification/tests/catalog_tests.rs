use rule_api::store_index::{
    first12, group_key, group_segments, is_low_rated, keywords_for, keywords_from_lowered,
    make_entry, normalize_summary, normalize_tags, render_agent_hook, render_catalog_markdown,
    render_entry_block, truncate_chars, RuleCatalogSource, RuleDisplayExtra,
};
use rule_api::RuleManifest;

fn uuid_to_string(id: u128) -> String {
    uuid::Uuid::from_u128(id).to_string()
}

fn rule(slug: &str, title: &str, body: &str) -> RuleManifest {
    RuleManifest::new(slug, title, "AGENTS", "section", body)
}

#[test]
fn groups_by_slug_prefix() {
    assert_eq!(group_key("shared/agent-rules/operating/l5"), "shared/agent-rules");
    assert_eq!(group_key("solo"), "solo");
    assert_eq!(group_key(""), "ungrouped");
    assert_eq!(group_segments("shared/agent-rules/operating/l5"), vec!["shared", "agent-rules", "operating"]);
}

#[test]
fn summary_takes_first_text_block() {
    assert_eq!(normalize_summary("# Heading\n\n- Do the thing carefully.\n"), "Do the thing carefully.");
    assert_eq!(normalize_summary("## Only a heading"), "");
}

#[test]
fn summaries_collapse_whitespace_and_truncate() {
    assert_eq!(normalize_summary("```\n> Quoted   words\there\n"), "Quoted words here");
    let long = "x".repeat(250);
    let summary = normalize_summary(&long);
    assert_eq!(summary.chars().count(), 200);
    assert!(summary.ends_with('…'));
    assert_eq!(truncate_chars("abc", 3), "abc");
    assert_eq!(truncate_chars("abcd", 3), "ab…");
}

#[test]
fn keywords_are_long_lowered_sorted_and_distinct() {
    assert_eq!(
        keywords_for("Operating Principles: Keep CONTEXT", "shared/agent-rules/keep-context_rules"),
        vec!["context", "keep", "operating", "principles", "rules"]
    );
    assert_eq!(
        keywords_from_lowered(&vec!["(alpha)".to_string(), "beta".to_string(), "alpha".to_string(), "xyz".to_string()]),
        vec!["alpha", "beta"]
    );
}

#[test]
fn tags_are_lowered_sorted_and_distinct() {
    let mut tags = vec!["Shared".to_string(), "draft".to_string(), "shared".to_string()];
    normalize_tags(&mut tags);
    assert_eq!(tags, vec!["draft", "shared"]);
}

#[test]
fn low_rated_needs_a_not_helpful_rating_at_least_as_common_as_helpful_ones() {
    let mut r = rule("shared/a/bad", "Bad Rule", "Avoid this.");
    assert!(!is_low_rated(&r));
    r.set_feedback_summary(0, 0, 3, 0, 0, None);
    assert!(is_low_rated(&r));
    r.set_feedback_summary(4, 0, 3, 0, 0, None);
    assert!(!is_low_rated(&r));
}

#[test]
fn catalog_entries_are_built_from_manifests() {
    let mut r = rule("shared/a/bad", "Bad Rule", "Avoid this.");
    r.set_feedback_summary(0, 0, 3, 0, 0, None);
    let entry = make_entry(&RuleCatalogSource { manifest: &r, source_path: ".rule/entries/r/rule.toml".to_string() });
    assert_eq!(entry.title, "Bad Rule");
    assert_eq!(entry.summary, "Avoid this.");
    assert_eq!(entry.tags, vec!["a", "draft", "low-rated", "shared"]);
    assert_eq!(entry.keywords, vec!["rule"]);

    let untitled = RuleManifest::new("shared/a/untitled", "", "AGENTS", "s", "");
    let entry = make_entry(&RuleCatalogSource { manifest: &untitled, source_path: "p".to_string() });
    assert_eq!(entry.title, "shared/a/untitled");
}

#[test]
fn low_rated_rule_is_badged() {
    let mut r = rule("shared/a/bad", "Bad Rule", "Avoid this.");
    r.set_feedback_summary(0, 0, 3, 0, 0, None);
    let mut entry = make_entry(&RuleCatalogSource { manifest: &r, source_path: ".rule/entries/r/rule.toml".to_string() });
    entry.digest = "0123456789abcdef".to_string();
    let extra = RuleDisplayExtra::from_manifest(&r);
    let block = render_entry_block(&entry, Some(&extra));
    assert!(block.contains("**[low-rated]**"));
    assert!(block.contains("- section: `section`"));
    assert!(block.contains("- feedback: helpful 0 / mixed 0 / not-helpful 3"));
    assert!(block.contains("digest=0123456789ab -->"));
    let page = render_catalog_markdown(&vec![entry], &vec![(r.id, extra)]);
    assert!(page.starts_with("<!-- rule-catalog:file generated=true -->\n\n## shared/a\n\n<!-- rule-catalog:entry id="));
    let entry = make_entry(&RuleCatalogSource { manifest: &r, source_path: "p".to_string() });
    let hook = render_agent_hook(&vec![entry], ".rule");
    assert!(hook.contains("Low-rated rules needing attention: 1"));
    assert!(hook.contains("- Total rules: 1\n- Groups: shared/a\n"));
}

#[test]
fn entry_blocks_have_a_fixed_layout() {
    let r = rule("shared/agent-rules/opening", "Opening", "Start here.");
    let mut entry = make_entry(&RuleCatalogSource { manifest: &r, source_path: ".rule/entries/r1/rule.toml".to_string() });
    entry.digest = "abc".to_string();
    let expected = format!(
        "<!-- rule-catalog:entry id={} slug=shared/agent-rules/opening digest=abc -->\n### Opening\n\nStart here.\n\n- slug: `shared/agent-rules/opening`\n- tags: agent-rules, draft, shared\n- ref: `.rule/entries/r1/rule.toml`\n",
        uuid_to_string(r.id)
    );
    assert_eq!(render_entry_block(&entry, None), expected);
    assert_eq!(first12("0123456789abcdef"), "0123456789ab");
}

#[test]
fn catalog_groups_entries_under_sorted_headers() {
    let r1 = rule("shared/agent-rules/opening", "Opening", "Start here.");
    let r2 = rule("alpha/x/closing", "Closing", "Finish here.");
    let e1 = make_entry(&RuleCatalogSource { manifest: &r1, source_path: "p1".to_string() });
    let e2 = make_entry(&RuleCatalogSource { manifest: &r2, source_path: "p2".to_string() });
    let page = render_catalog_markdown(&vec![e1, e2], &Vec::new());
    let alpha = page.find("## alpha/x").unwrap();
    let shared = page.find("## shared/agent-rules").unwrap();
    assert!(alpha < shared);
    let e1 = make_entry(&RuleCatalogSource { manifest: &r1, source_path: "p1".to_string() });
    let e2 = make_entry(&RuleCatalogSource { manifest: &r2, source_path: "p2".to_string() });
    let hook = render_agent_hook(&vec![e1, e2], ".rule");
    assert!(hook.starts_with("<!-- rule-catalog:agent-hook generated=true -->\n\n# Rules Catalog\n\nThe full guidance-rules catalog is generated at `.rule/README.md`\n(machine-readable sidecar: `.rule/index.toon`\n\n- Total rules: 2\n- Groups: alpha/x, shared/agent-rules\n- Low-rated rules needing attention: 0\n"));
}
