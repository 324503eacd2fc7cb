use agentix::docs::{
    chunk_by_paragraph, chunk_markdown, classify_doc, classify_path, doc_chunks, doc_kind_for,
    doc_kind_from, extract_title, is_changelog_filename, lhs_prose_strings, paragraph_strings,
    preview_of, split_on_heading, truncate_to_char_boundary, MAX_CHUNK_CHARS,
};

// ── chunk_by_paragraph ─────────────────────────────────────────────────────

#[test]
fn paragraph_split_on_blank_line() {
    let text = "First paragraph.\n\nSecond paragraph.\n";
    let chunks = chunk_by_paragraph(text);
    assert_eq!(chunks.len(), 2);
    assert!(chunks[0].content.contains("First"));
    assert!(chunks[1].content.contains("Second"));
}

#[test]
fn paragraph_empty_text_produces_no_chunks() {
    assert!(chunk_by_paragraph("").is_empty());
}

// ── lhs_prose extraction ───────────────────────────────────────────────────

/// The prose records of a literate Haskell source, as the documentation
/// ingestion stores them: (doc_kind, content).
fn extract_prose_records(lhs_source: &str) -> Vec<(String, String)> {
    lhs_prose_strings(lhs_source)
        .into_iter()
        .map(|content| ("lhs_prose".to_string(), content))
        .collect()
}

#[test]
fn bird_prose_chunks_have_lhs_prose_kind_and_no_code_prefix() {
    // Bird-style prose paragraphs become lhs_prose records without `> `.
    let src = [
        "First prose paragraph about the module.\n",
        "It spans multiple lines for context.\n",
        "\n",
        "> myFunc = 42\n",
        "\n",
        "Second prose paragraph after the code.\n",
        "This also spans multiple lines for the test.\n",
    ]
    .concat();
    let records = extract_prose_records(&src);
    assert!(
        !records.is_empty(),
        "expected at least one lhs_prose record"
    );
    for (kind, content) in &records {
        assert_eq!(kind, "lhs_prose");
        assert!(
            !content.contains("> "),
            "prose record contains code prefix '> ': {content:?}"
        );
    }
}

#[test]
fn latex_prose_chunk_carries_adjacent_code_header() {
    // Prose blocks in LaTeX-style files get an [Adjacent code: lines N-M] header.
    let src = [
        "This is an introductory prose paragraph that describes the module.\n",
        "It is long enough to exceed MIN_CHUNK_CHARS for the test to work.\n",
        "\\begin{code}\n",
        "module Foo where\n",
        "foo = 1\n",
        "\\end{code}\n",
        "Trailing prose after the code block.\n",
        "Also long enough to be indexed as a separate chunk here.\n",
    ]
    .concat();
    let records = extract_prose_records(&src);

    // The first prose record (before the code block) should carry the header.
    let first = records
        .iter()
        .find(|(_, c)| c.starts_with("[Adjacent code:"))
        .expect("expected at least one record with [Adjacent code:] header");
    assert!(
        first.1.contains("[Adjacent code: lines"),
        "header not found: {:?}",
        first.1
    );
}

#[test]
fn trailing_prose_has_no_adjacent_code_header() {
    // A prose block at end of file (no following code) must not get the header.
    let src = [
        "\\begin{code}\n",
        "module Bar where\n",
        "bar = 2\n",
        "\\end{code}\n",
        "This is trailing prose with no code block following it anywhere.\n",
        "It should be emitted without an [Adjacent code:] header.\n",
    ]
    .concat();
    let records = extract_prose_records(&src);
    let trailing = records.last().expect("expected at least one record");
    assert!(
        !trailing.1.starts_with("[Adjacent code:"),
        "trailing prose should not have adjacent-code header: {:?}",
        trailing.1
    );
}

// ── is_changelog_filename ──────────────────────────────────────────────────

#[test]
fn changelog_names_recognized() {
    for name in &[
        "CHANGELOG",
        "ChangeLog",
        "CHANGES",
        "NEWS",
        "HISTORY",
        "CHANGELOG.txt",
        "CHANGES.rst",
    ] {
        assert!(
            is_changelog_filename(name),
            "{name:?} should be recognized as a changelog"
        );
    }
}

#[test]
fn non_changelog_names_rejected() {
    for name in &["README.md", "NOTES.txt", "changelog.json"] {
        assert!(
            !is_changelog_filename(name),
            "{name:?} should NOT be recognized as a changelog"
        );
    }
}

// ── Edge cases and laws ────────────────────────────────────────────────────

#[test]
fn truncation_backs_off_to_a_char_boundary() {
    assert_eq!(truncate_to_char_boundary("héllo", 2), "h");
    assert_eq!(truncate_to_char_boundary("héllo", 3), "hé");
    assert_eq!(truncate_to_char_boundary("héllo", 100), "héllo");
    assert_eq!(truncate_to_char_boundary("abc", 0), "");
    assert_eq!(truncate_to_char_boundary("日本", 5), "日");
}

#[test]
fn paragraphs_are_trimmed_and_cut() {
    let long = "x".repeat(MAX_CHUNK_CHARS + 10);
    let text = format!("  one  \n\n\n\n   \n\n{long}\n\ntwo");
    let paras = paragraph_strings(&text);
    assert_eq!(paras.len(), 3);
    assert_eq!(paras[0], "one");
    assert_eq!(paras[1].len(), MAX_CHUNK_CHARS);
    assert_eq!(paras[2], "two");
    let chunks = chunk_by_paragraph(&text);
    let idx: Vec<i32> = chunks.iter().map(|c| c.index).collect();
    assert_eq!(idx, vec![0, 1, 2]);
}

#[test]
fn titles_come_from_the_first_h1() {
    assert_eq!(extract_title("intro\n  #NoSpace\n# Real Title  \n# Second", "f"), "Real Title");
    assert_eq!(extract_title("  #  Spaced  ", "f"), "Spaced");
    assert_eq!(extract_title("## only h2\n", "fallback"), "fallback");
    assert_eq!(extract_title("", "stem"), "stem");
}

#[test]
fn heading_split_keeps_heading_with_section() {
    let secs = split_on_heading("intro\n## A\na\n## B\nb", "## ");
    assert_eq!(secs, vec!["intro\n", "## A\na\n", "## B\nb\n"]);
    // A blank first section is not split off.
    let secs = split_on_heading("\n## A\na\n", "## ");
    assert_eq!(secs, vec!["\n## A\na\n"]);
    // Nothing but blank lines: the text is returned whole.
    assert_eq!(split_on_heading(" \n", "## "), vec![" \n"]);
}

#[test]
fn small_markdown_is_one_chunk() {
    let chunks = chunk_markdown("# T\n\nbody\n");
    assert_eq!(chunks.len(), 1);
    assert_eq!(chunks[0].index, 0);
    assert_eq!(chunks[0].content, "# T\n\nbody\n");
}

#[test]
fn large_markdown_splits_on_sections() {
    let a = "a".repeat(3000);
    let b = "b".repeat(3000);
    let src = format!("## A\n{a}\n## B\n{b}\n");
    let chunks = chunk_markdown(&src);
    assert_eq!(chunks.len(), 2);
    assert_eq!(chunks[0].content, format!("## A\n{a}"));
    assert_eq!(chunks[1].content, format!("## B\n{b}"));
    assert_eq!(chunks[1].index, 1);
}

#[test]
fn oversized_section_splits_on_subsections() {
    let a = "a".repeat(2500);
    let b = "b".repeat(2500);
    let src = format!("## Big\n### A\n{a}\n### B\n{b}\n");
    let chunks = chunk_markdown(&src);
    assert_eq!(chunks.len(), 3);
    assert_eq!(chunks[0].content, "## Big");
    assert_eq!(chunks[1].content, format!("### A\n{a}"));
    assert_eq!(chunks[2].content, format!("### B\n{b}"));
    assert_eq!(chunks[2].index, 2);
}

#[test]
fn previews_collapse_whitespace() {
    assert_eq!(preview_of("  a \n\t b  c "), "a b c");
    assert_eq!(preview_of(""), "");
    let long = "word ".repeat(100);
    assert_eq!(preview_of(&long).len(), 280);
}

#[test]
fn doc_classes() {
    assert_eq!(classify_doc("AGENTS.md"), Some("agent_instruction"));
    assert_eq!(classify_doc("sub\\AGENTS.md"), Some("agent_instruction"));
    assert_eq!(classify_doc(".agent/workflows/release.md"), Some("workflow"));
    assert_eq!(classify_doc(".agent/skills/x.md"), Some("skill"));
    assert_eq!(classify_doc(".agent/SOPs/x.md"), Some("sop"));
    assert_eq!(classify_doc(".agent/plans/p.md"), Some("plan"));
    assert_eq!(classify_doc(".agent/README.md"), Some("agent_index"));
    assert_eq!(classify_doc("docs/ReadMe.md"), Some("readme"));
    assert_eq!(classify_doc("docs/guide.md"), Some("docs"));
    assert_eq!(classify_path("/x/readme.md", "/x/readme.md"), "readme");
    assert_eq!(classify_path("/a.md", "/a.md"), "docs");
}

#[test]
fn doc_kinds_of_files() {
    assert_eq!(doc_kind_for("Intro.lhs", "src/Intro.lhs").as_deref(), Some("lhs_prose"));
    assert_eq!(doc_kind_for("NEWS", "NEWS").as_deref(), Some("changelog"));
    assert_eq!(doc_kind_for("README.md", "README.md").as_deref(), Some("readme"));
    assert_eq!(doc_kind_for("notes.txt", "notes.txt"), None);
    assert_eq!(doc_kind_from("x", "md", "a/x").as_deref(), Some("docs"));
}

#[test]
fn doc_chunks_of_a_changelog_keep_original_indices() {
    let src = "v1\n\nThis release fixes a long-standing problem with the widget cache.\n";
    let chunks = doc_chunks("changelog", src, "CHANGELOG");
    assert_eq!(chunks.len(), 1);
    assert_eq!(chunks[0].chunk_index, 1);
    assert_eq!(chunks[0].title, "CHANGELOG");
    assert_eq!(
        chunks[0].preview,
        "This release fixes a long-standing problem with the widget cache."
    );
}

#[test]
fn doc_chunks_of_markdown_use_the_title() {
    let src = "# Guide\n\nThis guide explains, at some length, how the indexer works.\n";
    let chunks = doc_chunks("docs", src, "guide");
    assert_eq!(chunks.len(), 1);
    assert_eq!(chunks[0].title, "Guide");
    assert_eq!(chunks[0].chunk_index, 0);
}

#[test]
fn doc_chunks_of_lhs_prose_are_numbered() {
    let src = [
        "This is an introductory prose paragraph that describes the module.\n",
        "\\begin{code}\n",
        "foo = 1\n",
        "\\end{code}\n",
    ]
    .concat();
    let chunks = doc_chunks("lhs_prose", &src, "Foo");
    assert_eq!(chunks.len(), 1);
    assert_eq!(chunks[0].chunk_index, 0);
    assert_eq!(chunks[0].title, "Foo");
    assert!(chunks[0].content.starts_with("[Adjacent code: lines 3-3]\n\n"));
}

#[test]
fn heading_sections_run_together_give_back_the_lines() {
    let text = "intro\r\n## A\na\n\n## B\nb\n\n  \n";
    let secs = split_on_heading(text, "## ");
    let joined: String = secs.concat();
    let lines: String = text.lines().map(|l| format!("{l}\n")).collect();
    assert!(lines.starts_with(&joined));
    assert!(lines[joined.len()..].trim().is_empty());
    assert_eq!(secs, vec!["intro\n", "## A\na\n\n", "## B\nb\n\n  \n"]);
}
