use rule_api::import::{
    import_markdown_blocks, lowercase_chars, normalize_slug_component_exec, slug_from_lowered_exec,
    MarkdownImportOptions,
};

fn options(prefix: &str, default_section: &str) -> MarkdownImportOptions {
    MarkdownImportOptions {
        slug_prefix: prefix.to_string(),
        default_section: default_section.to_string(),
    }
}

#[test]
fn import_markdown_blocks_attaches_heading_chunks_and_keeps_order() {
    let content = "# Opening\n\nStart with the concrete anchor.\n\n## Validation\n\n- Run the focused check\n- Then tests\n\nFinal note.";
    let blocks = import_markdown_blocks(content, &options("shared/agents", "agents"));

    assert_eq!(blocks.len(), 3);
    assert_eq!(blocks[0].section, "opening");
    assert_eq!(blocks[0].slug, "shared/agents/opening/l1");
    assert_eq!(blocks[0].body, "# Opening\n\nStart with the concrete anchor.");
    assert_eq!(blocks[1].section, "opening/validation");
    assert_eq!(blocks[1].body, "## Validation\n\n- Run the focused check\n- Then tests");
    assert_eq!(blocks[2].section, "opening/validation");
    assert_eq!(blocks[2].body, "Final note.");
    assert_eq!(blocks[2].order_key, 3);
}

#[test]
fn imported_blocks_are_numbered_in_document_order() {
    let content = "First rule.\n\nSecond rule.\n\nThird rule.";
    let blocks = import_markdown_blocks(content, &options("/shared/agents/", "Agents Section"));
    let keys = blocks.iter().map(|b| b.order_key).collect::<Vec<_>>();
    assert_eq!(keys, vec![1, 2, 3]);
    assert_eq!(blocks[0].section, "agents-section");
    assert_eq!(blocks[0].slug, "shared/agents/agents-section/l1");
    assert_eq!(blocks[1].slug, "shared/agents/agents-section/l3");
    assert_eq!(blocks[1].source_start_line, 3);
    assert_eq!(blocks[1].source_end_line, 3);
}

#[test]
fn a_trailing_heading_becomes_its_own_block() {
    let blocks = import_markdown_blocks("Intro text.\n\n# Closing", &options("p", "d"));
    assert_eq!(blocks.len(), 2);
    assert_eq!(blocks[1].section, "closing");
    assert_eq!(blocks[1].body, "# Closing");
    assert_eq!(blocks[1].order_key, 2);
}

#[test]
fn generated_comment_chunks_are_skipped() {
    let content = "<!-- rule-api:file generated=true -->\n\nKept rule.";
    let blocks = import_markdown_blocks(content, &options("p", "d"));
    assert_eq!(blocks.len(), 1);
    assert_eq!(blocks[0].body, "Kept rule.");
}

#[test]
fn slug_components_are_lowercase_and_dashed() {
    let out = normalize_slug_component_exec(&"  Quality Gates & Tests! ".chars().collect());
    assert_eq!(out.into_iter().collect::<String>(), "quality-gates-tests");
}

#[test]
fn crlf_documents_import_like_lf_documents() {
    let lf = "# Opening\n\nStart here.\n\n## Validation\n\n- Run checks\n- Then tests\n\nFinal note.\n";
    let crlf = lf.replace('\n', "\r\n");
    let a = import_markdown_blocks(lf, &options("shared/agents", "agents"));
    let b = import_markdown_blocks(&crlf, &options("shared/agents", "agents"));
    assert_eq!(a.len(), b.len());
    assert_eq!(a.len(), 3);
    for (x, y) in a.iter().zip(b.iter()) {
        assert_eq!(x.slug, y.slug);
        assert_eq!(x.title, y.title);
        assert_eq!(x.section, y.section);
        assert_eq!(x.body, y.body);
        assert_eq!(x.order_key, y.order_key);
        assert_eq!(x.source_start_line, y.source_start_line);
        assert_eq!(x.source_end_line, y.source_end_line);
    }
    assert_eq!(b[1].body, "## Validation\n\n- Run checks\n- Then tests");
}

#[test]
fn lowering_changes_only_capitals_in_ascii_text() {
    let out = lowercase_chars(&"Quality-Gates 2!".chars().collect());
    assert_eq!(out.into_iter().collect::<String>(), "quality-gates 2!");
    let out = lowercase_chars(&"ÄÖ".chars().collect());
    assert_eq!(out.into_iter().collect::<String>(), "äö");
}

#[test]
fn lowered_text_becomes_a_dashed_slug_component() {
    let out = slug_from_lowered_exec(&"--quality gates & tests!".chars().collect());
    assert_eq!(out.into_iter().collect::<String>(), "quality-gates-tests");
    let out = slug_from_lowered_exec(&"!!!".chars().collect());
    assert_eq!(out.into_iter().collect::<String>(), "section");
    let out = slug_from_lowered_exec(&Vec::new());
    assert_eq!(out.into_iter().collect::<String>(), "section");
}

#[test]
fn imported_blocks_cover_disjoint_line_ranges_in_order() {
    let content = "# A\n\nOne.\n\n## B\n\nTwo.\nMore.\n\n# C\n";
    let blocks = import_markdown_blocks(content, &options("p", "d"));
    let total = content.lines().count() as i64;
    assert_eq!(blocks.len(), 3);
    for b in &blocks {
        assert!(1 <= b.source_start_line && b.source_start_line <= b.source_end_line);
        assert!(b.source_end_line <= total);
    }
    for w in blocks.windows(2) {
        assert!(w[0].source_end_line < w[1].source_start_line);
    }
    assert_eq!((blocks[0].source_start_line, blocks[0].source_end_line), (1, 3));
    assert_eq!((blocks[1].source_start_line, blocks[1].source_end_line), (5, 8));
    assert_eq!((blocks[2].source_start_line, blocks[2].source_end_line), (10, 10));
}
