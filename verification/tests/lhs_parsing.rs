use agentix::lhs::{detect_style, parse_lhs, BlockKind, LhsBlock, LhsStyle, LineMap};

// ── Bird-style ─────────────────────────────────────────────────────────────

#[test]
fn bird_empty_file() {
    let parsed = parse_lhs("");
    assert!(parsed.blocks.is_empty());
    assert_eq!(parsed.style, LhsStyle::Bird);
}

#[test]
fn bird_prose_only() {
    let src = "This is prose.\nNo code here.\n";
    let parsed = parse_lhs(src);
    assert_eq!(parsed.blocks.len(), 1);
    assert_eq!(parsed.blocks[0].kind, BlockKind::Prose);
    assert_eq!(parsed.blocks[0].start_line, 1);
    assert_eq!(parsed.blocks[0].end_line, 2);
}

#[test]
fn bird_code_only() {
    let src = "> foo = 1\n> bar = 2\n";
    let parsed = parse_lhs(src);
    assert_eq!(parsed.blocks.len(), 1);
    assert_eq!(parsed.blocks[0].kind, BlockKind::Code);
    assert!(!parsed.blocks[0].content.contains("> "));
    assert_eq!(parsed.blocks[0].start_line, 1);
    assert_eq!(parsed.blocks[0].end_line, 2);
}

#[test]
fn bird_alternating_blocks() {
    let src = "prose line\n> code line\nmore prose\n";
    let parsed = parse_lhs(src);
    assert_eq!(parsed.blocks.len(), 3);
    assert_eq!(parsed.blocks[0].kind, BlockKind::Prose);
    assert_eq!(parsed.blocks[1].kind, BlockKind::Code);
    assert_eq!(parsed.blocks[2].kind, BlockKind::Prose);
}

#[test]
fn bird_bare_gt_is_prose() {
    // A bare `>` with no trailing space is prose per GHC semantics.
    let src = "> code\n>\nnot code\n";
    let parsed = parse_lhs(src);
    assert_eq!(parsed.blocks[0].kind, BlockKind::Code);
    assert_eq!(parsed.blocks[1].kind, BlockKind::Prose);
    assert!(parsed.blocks[1].content.contains('>'));
}

#[test]
fn bird_strips_prefix_from_code() {
    let src = "> myFunc = 42\n";
    let parsed = parse_lhs(src);
    assert_eq!(parsed.blocks[0].content, "myFunc = 42");
}

#[test]
fn bird_line_numbers_correct() {
    // Lines 1-2 prose, line 3 code, lines 4-5 prose.
    let src = "prose1\nprosa2\n> code\nfinal prose\nstill prose\n";
    let parsed = parse_lhs(src);
    assert_eq!(parsed.blocks[0].start_line, 1);
    assert_eq!(parsed.blocks[0].end_line, 2);
    assert_eq!(parsed.blocks[1].start_line, 3);
    assert_eq!(parsed.blocks[1].end_line, 3);
    assert_eq!(parsed.blocks[2].start_line, 4);
    assert_eq!(parsed.blocks[2].end_line, 5);
}

// ── LaTeX-style ────────────────────────────────────────────────────────────

#[test]
fn latex_detected_when_begin_code_present() {
    let src = "prose\n\\begin{code}\nfoo = 1\n\\end{code}\n";
    let parsed = parse_lhs(src);
    assert_eq!(parsed.style, LhsStyle::LaTeX);
}

#[test]
fn latex_basic_structure() {
    let src = "prose\n\\begin{code}\nfoo = 1\n\\end{code}\nmore prose\n";
    let parsed = parse_lhs(src);
    assert_eq!(parsed.blocks.len(), 3);
    assert_eq!(parsed.blocks[0].kind, BlockKind::Prose);
    assert_eq!(parsed.blocks[1].kind, BlockKind::Code);
    assert_eq!(parsed.blocks[2].kind, BlockKind::Prose);
    // Delimiter lines are NOT part of any block's content.
    assert!(!parsed.blocks[1].content.contains("begin{code}"));
    assert!(!parsed.blocks[1].content.contains("end{code}"));
}

#[test]
fn latex_multiple_code_blocks() {
    let src = "intro\n\\begin{code}\nfoo = 1\n\\end{code}\nmiddle\n\\begin{code}\nbar = 2\n\\end{code}\noutro\n";
    let parsed = parse_lhs(src);
    let code_count = parsed
        .blocks
        .iter()
        .filter(|b| b.kind == BlockKind::Code)
        .count();
    let prose_count = parsed
        .blocks
        .iter()
        .filter(|b| b.kind == BlockKind::Prose)
        .count();
    assert_eq!(code_count, 2);
    assert_eq!(prose_count, 3);
}

#[test]
fn latex_unclosed_begin_code_treated_as_code() {
    let src = "prose\n\\begin{code}\nfoo = 1\nbar = 2\n";
    let parsed = parse_lhs(src);
    let last = parsed.blocks.last().expect("should have blocks");
    assert_eq!(last.kind, BlockKind::Code);
    assert!(last.content.contains("foo = 1"));
    assert!(last.content.contains("bar = 2"));
}

#[test]
fn latex_empty_code_block_not_emitted() {
    // \begin{code} immediately followed by \end{code} — nothing to emit.
    let src = "prose\n\\begin{code}\n\\end{code}\nmore\n";
    let parsed = parse_lhs(src);
    assert!(parsed.blocks.iter().all(|b| !b.content.is_empty()));
}

#[test]
fn latex_line_numbers_correct() {
    // line 1: prose, line 2: \begin{code}, line 3: code, line 4: \end{code}, line 5: prose
    let src = "intro\n\\begin{code}\nfoo = 1\n\\end{code}\noutro\n";
    let parsed = parse_lhs(src);
    let prose1 = &parsed.blocks[0];
    let code1 = &parsed.blocks[1];
    let prose2 = &parsed.blocks[2];
    assert_eq!(prose1.start_line, 1);
    assert_eq!(prose1.end_line, 1);
    assert_eq!(code1.start_line, 3); // delimiter line 2 is excluded
    assert_eq!(code1.end_line, 3);
    assert_eq!(prose2.start_line, 5); // delimiter line 4 is excluded
    assert_eq!(prose2.end_line, 5);
}

// ── LineMap ────────────────────────────────────────────────────────────────

#[test]
fn linemap_empty() {
    let map = LineMap::from_code_blocks(&[]);
    // Falls back to identity.
    assert_eq!(map.file_line(1), 1);
    assert_eq!(map.file_line(5), 5);
}

#[test]
fn linemap_single_block() {
    // Code block starts at file line 5, has 3 lines.
    let block = LhsBlock {
        kind: BlockKind::Code,
        content: "a\nb\nc".to_string(),
        start_line: 5,
        end_line: 7,
    };
    let map = LineMap::from_code_blocks(&[&block]);
    assert_eq!(map.file_line(1), 5);
    assert_eq!(map.file_line(2), 6);
    assert_eq!(map.file_line(3), 7);
}

#[test]
fn linemap_multiple_blocks() {
    // Block A: file lines 3-5 (3 lines), Block B: file lines 10-11 (2 lines).
    let block_a = LhsBlock {
        kind: BlockKind::Code,
        content: "x\ny\nz".to_string(),
        start_line: 3,
        end_line: 5,
    };
    let block_b = LhsBlock {
        kind: BlockKind::Code,
        content: "p\nq".to_string(),
        start_line: 10,
        end_line: 11,
    };
    let map = LineMap::from_code_blocks(&[&block_a, &block_b]);
    // Block A: code buf lines 1-3 → file lines 3-5
    assert_eq!(map.file_line(1), 3);
    assert_eq!(map.file_line(2), 4);
    assert_eq!(map.file_line(3), 5);
    // Block B: code buf lines 4-5 → file lines 10-11
    assert_eq!(map.file_line(4), 10);
    assert_eq!(map.file_line(5), 11);
}

// ── Edge cases and laws ────────────────────────────────────────────────────

#[test]
fn detect_style_needs_exact_begin_code_line() {
    assert_eq!(detect_style("prose\n\\begin{code}\nx\n"), LhsStyle::LaTeX);
    assert_eq!(detect_style("prose \\begin{code}\nx\n"), LhsStyle::Bird);
    assert_eq!(detect_style("> x = 1\n"), LhsStyle::Bird);
}

#[test]
fn code_and_prose_blocks_partition_the_parse() {
    let parsed = parse_lhs("intro\n> a = 1\nmiddle\n> b = 2\n");
    let code: Vec<&str> = parsed.code_blocks().iter().map(|b| b.content.as_str()).collect();
    let prose: Vec<&str> = parsed.prose_blocks().iter().map(|b| b.content.as_str()).collect();
    assert_eq!(code, vec!["a = 1", "b = 2"]);
    assert_eq!(prose, vec!["intro", "middle"]);
    assert!(parsed.has_code());
    assert!(!parse_lhs("just prose\n").has_code());
}

#[test]
fn bird_blocks_alternate_and_ascend() {
    let parsed = parse_lhs("p1\n> c1\n> c2\np2\n\n> c3\n");
    for w in parsed.blocks.windows(2) {
        assert_ne!(w[0].kind, w[1].kind);
        assert!(w[0].end_line < w[1].start_line);
    }
    assert_eq!(parsed.blocks[1].content, "c1\nc2");
}

#[test]
fn linemap_past_last_block_clamps_to_last_line() {
    let block = LhsBlock {
        kind: BlockKind::Code,
        content: "a\nb".to_string(),
        start_line: 4,
        end_line: 5,
    };
    let map = LineMap::from_code_blocks(&[&block]);
    assert_eq!(map.file_line(3), 5);
    assert_eq!(map.file_line(9), 5);
    assert_eq!(map.file_line(0), 0);
}

#[test]
fn linemap_counts_a_trailing_newline_as_a_buffer_line() {
    // Code blocks "a\n" (file lines 2-3) and "b\nc" (file lines 6-7): joined
    // with a newline the buffer holds the lines a, "", b, c.
    let a = LhsBlock { kind: BlockKind::Code, content: "a\n".to_string(), start_line: 2, end_line: 3 };
    let b = LhsBlock { kind: BlockKind::Code, content: "b\nc".to_string(), start_line: 6, end_line: 7 };
    let m = LineMap::from_code_blocks(&[&a, &b]);
    assert_eq!(m.file_line(1), 2);
    assert_eq!(m.file_line(2), 3);
    assert_eq!(m.file_line(3), 6);
    assert_eq!(m.file_line(4), 7);
}

#[test]
fn latex_begin_inside_code_is_code_and_toggles_lie_in_no_block() {
    let parsed = parse_lhs("p\n\\begin{code}\na\n\\begin{code}\n\\end{code}\nb\n");
    assert_eq!(parsed.style, LhsStyle::LaTeX);
    assert_eq!(parsed.blocks.len(), 3);
    assert_eq!(parsed.blocks[0].kind, BlockKind::Prose);
    assert_eq!((parsed.blocks[0].start_line, parsed.blocks[0].end_line), (1, 1));
    assert_eq!(parsed.blocks[1].kind, BlockKind::Code);
    assert_eq!(parsed.blocks[1].content, "a\n\\begin{code}");
    assert_eq!((parsed.blocks[1].start_line, parsed.blocks[1].end_line), (3, 4));
    assert_eq!(parsed.blocks[2].kind, BlockKind::Prose);
    assert_eq!((parsed.blocks[2].start_line, parsed.blocks[2].end_line), (6, 6));
}

#[test]
fn unclosed_code_block_is_reported() {
    assert!(agentix::lhs::unclosed_code_block("p\n\\begin{code}\na\nb\n"));
    assert!(!agentix::lhs::unclosed_code_block("p\n\\begin{code}\na\n\\end{code}\n"));
    // Opened on the last line: nothing is left open with lines in it.
    assert!(!agentix::lhs::unclosed_code_block("p\n\\begin{code}\n"));
    assert!(!agentix::lhs::unclosed_code_block("> a = 1\n"));
}
