use agentix::chunk::{
    chunk_lines, lhs_code_buffer, make_chunks, make_lhs_chunks, symbol_language, Symbol,
    CHUNK_LINES, MAX_CHUNKS_PER_FILE,
};
use agentix::files::{
    detect_language, file_extension, is_code_extension, is_code_file, is_skipped_code_dir,
    is_skipped_doc_dir, language_for_extension, lowercase_extension, uses_lhs_chunker,
};
use agentix::hashing::sha256_hex;
use agentix::ingest::{code_chunks_for, unchanged_by_hash, unchanged_by_mtime, StoredFile};

// ── chunk_lines ────────────────────────────────────────────────────────────

#[test]
fn chunk_lines_empty() {
    assert!(chunk_lines("").is_empty());
}

#[test]
fn chunk_lines_short_file() {
    let src = "line1\nline2\nline3\n";
    let chunks = chunk_lines(src);
    assert_eq!(chunks.len(), 1);
    assert_eq!(chunks[0].start_line, 1);
    assert_eq!(chunks[0].end_line, 3);
    assert!(chunks[0].content.contains("line1"));
    assert!(chunks[0].content.contains("line3"));
}

#[test]
fn chunk_lines_respects_cap() {
    // Build a file with more lines than MAX_CHUNKS_PER_FILE * CHUNK_LINES
    // so we would exceed the cap if it weren't enforced.
    let line = "x = 1\n";
    let n = MAX_CHUNKS_PER_FILE * CHUNK_LINES + 200;
    let src = line.repeat(n);
    let chunks = chunk_lines(&src);
    assert!(
        chunks.len() <= MAX_CHUNKS_PER_FILE,
        "got {} chunks, expected <= {}",
        chunks.len(),
        MAX_CHUNKS_PER_FILE
    );
}

#[test]
fn chunk_lines_overlap_means_consecutive_chunks_share_lines() {
    let lines: Vec<String> = (1..=300).map(|i| format!("line{i}")).collect();
    let src = lines.join("\n");
    let chunks = chunk_lines(&src);
    assert!(chunks.len() >= 2, "expected multiple chunks");
    // The end of chunk 0 should be >= the start of chunk 1 (overlap).
    assert!(
        chunks[0].end_line >= chunks[1].start_line,
        "no overlap between chunk 0 (end {}) and chunk 1 (start {})",
        chunks[0].end_line,
        chunks[1].start_line
    );
}

// ── make_chunks ────────────────────────────────────────────────────────────

#[test]
fn make_chunks_unknown_language_falls_back_to_lines() {
    let src = "hello\nworld\n";
    // No extractor exists for the language, so no symbols are given.
    let chunks = make_chunks(src, "cobol", &[]);
    assert!(!chunks.is_empty());
    assert!(chunks[0].symbol_kind.is_none());
}

// The symbol extractor is not part of this library: the symbols it reports
// for these sources are given with them.

#[test]
fn make_chunks_haskell_extracts_instances() {
    let src = r#"module Foo where

data Color = Red | Green | Blue

instance Show Color where
    show Red   = "Red"
    show Green = "Green"
    show Blue  = "Blue"
"#;
    let symbols = vec![
        sym("type", "data Color = Red | Green | Blue", 3, 3),
        sym(
            "impl",
            "instance Show Color where\n    show Red   = \"Red\"\n    show Green = \"Green\"\n    show Blue  = \"Blue\"",
            5,
            8,
        ),
    ];
    let chunks = make_chunks(src, "haskell", &symbols);
    let has_instance = chunks
        .iter()
        .any(|c| c.symbol_kind.as_deref() == Some("impl") && c.content.contains("Show Color"));
    assert!(
        has_instance,
        "expected an impl chunk for 'instance Show Color'"
    );
}

#[test]
fn make_chunks_haskell_cpp_instance_is_extracted() {
    // An instance declaration wrapped in a CPP conditional block should not
    // be silently dropped.
    let src = r#"module Foo where

#if MIN_VERSION_base(4,10,0)
instance Show Foo where
    show _ = "Foo (new)"
#else
instance Show Foo where
    show _ = "Foo (old)"
#endif
"#;
    let symbols = vec![
        sym("impl", "instance Show Foo where\n    show _ = \"Foo (new)\"", 4, 5),
        sym("impl", "instance Show Foo where\n    show _ = \"Foo (old)\"", 7, 8),
    ];
    let chunks = make_chunks(src, "haskell", &symbols);
    let has_instance = chunks
        .iter()
        .any(|c| c.symbol_kind.as_deref() == Some("impl") && c.content.contains("Show Foo"));
    assert!(
        has_instance,
        "instance inside CPP block was silently dropped"
    );
}

// ── make_lhs_chunks ────────────────────────────────────────────────────────
// The symbol extractor is not part of this library; these cases give it as
// having found nothing in the stripped code, so the code is windowed by lines.

#[test]
fn make_lhs_chunks_bird_strips_prefix() {
    let src = "> myFunc = 42\n\nsome prose line\n";
    let chunks = make_lhs_chunks(src, &[]);
    // All returned chunks must not contain the `> ` prefix.
    for chunk in &chunks {
        assert!(
            !chunk.content.contains("> "),
            "chunk still contains '> ' prefix: {:?}",
            chunk.content
        );
    }
    // At least one chunk should exist (from the code line).
    assert!(!chunks.is_empty());
}

#[test]
fn make_lhs_chunks_latex_strips_delimiters_and_prose() {
    let src = "some prose\n\\begin{code}\nmyFunc = 42\n\\end{code}\nmore prose\n";
    let chunks = make_lhs_chunks(src, &[]);
    // The only code content is `myFunc = 42`.
    assert!(!chunks.is_empty());
    for chunk in &chunks {
        assert!(
            !chunk.content.contains("begin{code}"),
            "chunk contains LaTeX delimiter: {:?}",
            chunk.content
        );
        assert!(
            !chunk.content.contains("some prose"),
            "chunk contains prose: {:?}",
            chunk.content
        );
    }
}

#[test]
fn make_lhs_chunks_no_code_returns_empty() {
    let src = "This file has only prose.\nNo code lines at all.\n";
    let chunks = make_lhs_chunks(src, &[]);
    assert!(chunks.is_empty());
}

// ── Edge cases and laws ────────────────────────────────────────────────────

fn sym(kind: &str, content: &str, start: usize, end: usize) -> Symbol {
    Symbol {
        kind: kind.to_string(),
        content: content.to_string(),
        start_line: start,
        end_line: end,
    }
}

#[test]
fn make_chunks_one_chunk_per_symbol() {
    let src = "module Foo where\n\ninstance Show Color where\n  show _ = \"c\"\n";
    let syms = vec![sym("impl", "instance Show Color where\n  show _ = \"c\"", 3, 4)];
    let chunks = make_chunks(src, "haskell", &syms);
    assert_eq!(chunks.len(), 1);
    assert_eq!(chunks[0].index, 0);
    assert_eq!(chunks[0].symbol_kind.as_deref(), Some("impl"));
    assert!(chunks[0].content.contains("Show Color"));
    assert_eq!((chunks[0].start_line, chunks[0].end_line), (3, 4));
}

#[test]
fn make_chunks_fills_uncovered_tail_with_windows() {
    let lines: Vec<String> = (1..=400).map(|i| format!("l{i}")).collect();
    let src = lines.join("\n");
    let syms = vec![sym("function", "l1\nl2", 1, 2)];
    let chunks = make_chunks(&src, "rust", &syms);
    assert_eq!(chunks[0].symbol_kind.as_deref(), Some("function"));
    // The tail windows start OVERLAP_LINES before the end of the symbols (at line 1).
    assert_eq!(chunks[1].start_line, 1);
    assert!(chunks[1].symbol_kind.is_none());
    assert_eq!(chunks[1].index, 1);
    assert_eq!(chunks.last().unwrap().end_line, 400);
}

#[test]
fn make_chunks_no_symbols_uses_windows() {
    let chunks = make_chunks("a\nb\n", "rust", &[]);
    assert_eq!(chunks.len(), 1);
    assert!(chunks[0].symbol_kind.is_none());
}

#[test]
fn chunk_lines_windows_start_every_105_lines() {
    let lines: Vec<String> = (1..=300).map(|i| format!("line{i}")).collect();
    let chunks = chunk_lines(&lines.join("\n"));
    let starts: Vec<i32> = chunks.iter().map(|c| c.start_line).collect();
    assert_eq!(starts, vec![1, 106, 211]);
    assert_eq!(chunks[0].end_line, 120);
    assert_eq!(chunks[2].end_line, 300);
}

#[test]
fn chunk_lines_skips_blank_windows() {
    let mut src = String::new();
    for _ in 0..130 {
        src.push_str("   \n");
    }
    src.push_str("code\n");
    let chunks = chunk_lines(&src);
    assert_eq!(chunks.len(), 1);
    assert_eq!(chunks[0].start_line, 106);
    assert_eq!(chunks[0].index, 0);
}

#[test]
fn lhs_chunks_are_relocated_to_file_lines() {
    let src = "intro\n\\begin{code}\nfoo = 1\n\\end{code}\nmiddle\n\\begin{code}\nbar = 2\n\\end{code}\n";
    assert_eq!(lhs_code_buffer(src), "foo = 1\nbar = 2");
    let chunks = make_lhs_chunks(src, &[]);
    assert_eq!(chunks.len(), 1);
    assert_eq!((chunks[0].start_line, chunks[0].end_line), (3, 7));
}

#[test]
fn symbol_languages() {
    assert!(symbol_language("haskell"));
    assert!(symbol_language("kotlin"));
    assert!(!symbol_language("cobol"));
    assert!(!symbol_language("go"));
}

#[test]
fn language_detection() {
    assert_eq!(detect_language("Main.hs"), "haskell");
    assert_eq!(detect_language("Foo.LHS"), "haskell");
    assert_eq!(detect_language("cabal.project.local"), "cabal");
    assert_eq!(detect_language("Types.hs-boot"), "haskell");
    assert_eq!(detect_language("lib.rs"), "rust");
    assert_eq!(detect_language("app.tsx"), "typescript");
    assert_eq!(detect_language("Makefile"), "text");
    assert_eq!(detect_language(".bashrc"), "text");
    assert_eq!(language_for_extension("kts"), "kotlin");
    assert_eq!(language_for_extension("yml"), "yaml");
    assert_eq!(language_for_extension("md"), "text");
}

#[test]
fn extensions_follow_path_rules() {
    assert_eq!(file_extension("a.tar.gz").as_deref(), Some("gz"));
    assert_eq!(file_extension(".bashrc"), None);
    assert_eq!(file_extension("noext"), None);
    assert_eq!(file_extension("trailing."), Some(String::new()));
    assert_eq!(file_extension(".."), None);
    assert_eq!(lowercase_extension("README.MD"), "md");
    assert_eq!(lowercase_extension("Makefile"), "");
}

#[test]
fn code_file_selection() {
    let none: Vec<String> = vec![];
    assert!(is_code_file("main.rs", "src/main.rs", &none));
    assert!(is_code_file("cabal.project", "cabal.project", &none));
    assert!(is_code_file("A.hs-boot", "src/A.hs-boot", &none));
    assert!(!is_code_file("README.md", "README.md", &none));
    assert!(!is_code_file("Build.kt", "Build.kt", &none));
    let extra = vec!["docs/*.md".to_string()];
    assert!(is_code_file("README.md", "docs/README.md", &extra));
    let bad = vec!["[".to_string()];
    assert!(!is_code_file("README.md", "README.md", &bad));
    assert!(is_code_extension("cabal"));
    assert!(!is_code_extension("kt"));
    assert!(uses_lhs_chunker("Foo.lhs"));
    assert!(uses_lhs_chunker("Foo.lhs-boot"));
    assert!(!uses_lhs_chunker("Foo.hs"));
}

#[test]
fn skipped_directories() {
    assert!(is_skipped_code_dir("target"));
    assert!(is_skipped_code_dir(".stack-work"));
    assert!(!is_skipped_code_dir("src"));
    assert!(!is_skipped_code_dir(".git"));
    assert!(is_skipped_doc_dir(".git"));
    assert!(is_skipped_doc_dir("node_modules"));
    assert!(!is_skipped_doc_dir("vendor"));
}

#[test]
fn sha256_hex_of_known_texts() {
    assert_eq!(
        sha256_hex(""),
        "e3b0c44298fc1c149afbf4c8996fb92427ae41e4649b934ca495991b7852b855"
    );
    assert_eq!(
        sha256_hex("abc"),
        "ba7816bf8f01cfea414140de5dae2223b00361a396177a9cb410ff61f20015ad"
    );
}

#[test]
fn incremental_skip_decisions() {
    let stored = StoredFile {
        mtime_nanos: Some(42),
        content_hash: "abc".to_string(),
    };
    assert!(unchanged_by_mtime(false, Some(&stored), Some(42)));
    assert!(!unchanged_by_mtime(true, Some(&stored), Some(42)));
    assert!(!unchanged_by_mtime(false, Some(&stored), Some(43)));
    assert!(!unchanged_by_mtime(false, Some(&stored), None));
    assert!(!unchanged_by_mtime(false, None, Some(42)));
    assert!(unchanged_by_hash(false, Some(&stored), "abc"));
    assert!(!unchanged_by_hash(false, Some(&stored), "abd"));
    assert!(!unchanged_by_hash(true, Some(&stored), "abc"));
    assert!(!unchanged_by_hash(false, None, "abc"));
}

#[test]
fn code_chunks_route_by_file_name() {
    let lhs = "> x = 1\n";
    let chunks = code_chunks_for("Foo.lhs", lhs, &[]);
    assert_eq!(chunks[0].content, "x = 1");
    let chunks = code_chunks_for("Foo.hs", lhs, &[]);
    assert_eq!(chunks[0].content, "> x = 1");
}

#[test]
fn chunks_are_capped_and_numbered_without_gaps() {
    let src: String = (1..=300).map(|i| format!("f{i} = {i}\n")).collect();
    let symbols: Vec<Symbol> = (1..=300)
        .map(|i| sym("function", &format!("f{i} = {i}"), i, i))
        .collect();
    let chunks = make_chunks(&src, "haskell", &symbols);
    assert_eq!(chunks.len(), 256);
    for (i, c) in chunks.iter().enumerate() {
        assert_eq!(c.index, i as i32);
    }
    // A few symbols early in a long file: windows follow over the tail,
    // numbered on from the symbols.
    let few = vec![sym("function", "f1 = 1", 1, 1)];
    let chunks = make_chunks(&src, "haskell", &few);
    assert!(chunks.len() > 1);
    for (i, c) in chunks.iter().enumerate() {
        assert_eq!(c.index, i as i32);
    }
}
