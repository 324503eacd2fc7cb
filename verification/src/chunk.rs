//! Splitting source files into indexable chunks: symbol chunks where a symbol
//! extractor found symbols, overlapping line windows everywhere else.
use vstd::prelude::*;

use crate::lhs::{
    block_ref_views, code_ranges, is_code_block, lemma_code_ranges_bounded,
    lemma_code_ranges_filter, lemma_map_line_bounded, lemma_parse_blocks_placed, map_line,
    parse_lhs, spec_parse_blocks, BlockSpec, LhsBlock, LineMap,
};
use crate::text::{
    blank, chars_eq, chars_of, is_blank, join_nl, join_range, lines_of, split_lines, string_of,
    utf8_len, utf8_len_upto, views,
};

verus! {

/// Lines per line-window chunk.
pub const CHUNK_LINES: usize = 120;

/// Lines shared by consecutive line-window chunks.
pub const OVERLAP_LINES: usize = 15;

/// Line windows larger than this many UTF-8 bytes are not indexed.
pub const MAX_CHUNK_BYTES: usize = 8000;

/// At most this many chunks are produced per file.
pub const MAX_CHUNKS_PER_FILE: usize = 256;

/// Distance between the starts of consecutive line windows.
pub open spec fn window_step() -> int {
    105
}

/// The start of the window after the one at `i`, capped at `n`.
pub open spec fn next_start(i: int, n: int) -> int {
    if i + window_step() < n {
        i + window_step()
    } else {
        n
    }
}

/// The next window start after `i`, capped at `n`.
fn next_window_start(i: usize, n: usize) -> (r: usize)
    requires
        i < n,
    ensures
        i < r <= n,
        r == next_start(i as int, n as int),
{
    assert(CHUNK_LINES - OVERLAP_LINES == 105);
    if n - i > CHUNK_LINES - OVERLAP_LINES {
        i + (CHUNK_LINES - OVERLAP_LINES)
    } else {
        n
    }
}


/// A chunk of a source file.
#[derive(Debug, Clone)]
pub struct Chunk {
    pub index: i32,
    pub content: String,
    pub start_line: i32,
    pub end_line: i32,
    pub symbol_kind: Option<String>,
}

/// Mathematical model of a chunk.
pub struct ChunkSpec {
    pub index: i32,
    pub content: Seq<char>,
    pub start_line: i32,
    pub end_line: i32,
    pub symbol_kind: Option<Seq<char>>,
}

impl View for Chunk {
    type V = ChunkSpec;

    open spec fn view(&self) -> ChunkSpec {
        ChunkSpec {
            index: self.index,
            content: self.content@,
            start_line: self.start_line,
            end_line: self.end_line,
            symbol_kind: match self.symbol_kind {
                Some(k) => Some(k@),
                None => None,
            },
        }
    }
}

/// Views of a sequence of chunks.
pub open spec fn chunk_views(cs: Seq<Chunk>) -> Seq<ChunkSpec> {
    Seq::new(cs.len(), |i: int| cs[i]@)
}

/// A symbol found by a language-aware extractor (a function, type, instance, …),
/// with 1-indexed inclusive line numbers.
#[derive(Debug, Clone)]
pub struct Symbol {
    pub kind: String,
    pub content: String,
    pub start_line: usize,
    pub end_line: usize,
}

// ── Line windows ──────────────────────────────────────────────────────────────

/// Overlapping windows of `CHUNK_LINES` lines over `ls`, starting at line index
/// `i` and `window_step()` apart, numbered from `produced` on. Windows that are
/// blank or larger than `MAX_CHUNK_BYTES` are skipped; no more than
/// `MAX_CHUNKS_PER_FILE` chunks are numbered in all. With `stop_at_end`, the
/// first window that reaches the last line is the last one.
pub open spec fn windows(ls: Seq<Seq<char>>, i: int, produced: int, stop_at_end: bool) -> Seq<
    ChunkSpec,
>
    decreases ls.len() - i,
{
    if i < 0 || i >= ls.len() || produced >= MAX_CHUNKS_PER_FILE {
        Seq::empty()
    } else {
        let end = if i + CHUNK_LINES < ls.len() {
            i + CHUNK_LINES
        } else {
            ls.len() as int
        };
        let text = join_nl(ls.subrange(i, end));
        if is_blank(text) || utf8_len(text) > MAX_CHUNK_BYTES {
            windows(ls, next_start(i, ls.len() as int), produced, stop_at_end)
        } else {
            let c = ChunkSpec {
                index: produced as i32,
                content: text,
                start_line: (i + 1) as i32,
                end_line: end as i32,
                symbol_kind: None,
            };
            if stop_at_end && end >= ls.len() {
                seq![c]
            } else {
                seq![c] + windows(ls, next_start(i, ls.len() as int), produced + 1, stop_at_end)
            }
        }
    }
}

/// Appends to `chunks` the windows of `lines` from line index `start` on.
fn push_windows(
    lines: &Vec<Vec<char>>,
    start: usize,
    chunks: &mut Vec<Chunk>,
    stop_at_end: bool,
)
    requires
        old(chunks).len() <= MAX_CHUNKS_PER_FILE,
    ensures
        chunk_views(final(chunks)@) == chunk_views(old(chunks)@) + windows(
            views(lines@),
            start as int,
            old(chunks).len() as int,
            stop_at_end,
        ),
{
    let ghost ls = views(lines@);
    let ghost goal = chunk_views(old(chunks)@) + windows(
        ls,
        start as int,
        old(chunks).len() as int,
        stop_at_end,
    );
    let n = lines.len();
    let mut i: usize = start;
    while i < n && chunks.len() < MAX_CHUNKS_PER_FILE
        invariant
            n == lines.len(),
            ls == views(lines@),
            chunks.len() <= MAX_CHUNKS_PER_FILE,
            chunk_views(chunks@) + windows(ls, i as int, chunks.len() as int, stop_at_end) == goal,
            goal == chunk_views(old(chunks)@) + windows(
                ls,
                start as int,
                old(chunks).len() as int,
                stop_at_end,
            ),
        decreases n - i,
    {
        let end = if i.saturating_add(CHUNK_LINES) < n {
            i + CHUNK_LINES
        } else {
            n
        };
        let text = join_range(lines, i, end);
        let skip = if blank(&text) {
            true
        } else {
            match utf8_len_upto(&text, MAX_CHUNK_BYTES) {
                Some(_) => false,
                None => true,
            }
        };
        if skip {
            let next = next_window_start(i, n);
            i = next;
            continue;
        }
        let c = Chunk {
            index: chunks.len() as i32,
            content: string_of(&text),
            start_line: (i + 1) as i32,
            end_line: end as i32,
            symbol_kind: None,
        };
        let ghost before = chunks@;
        chunks.push(c);
        proof {
            assert(chunk_views(chunks@) =~= chunk_views(before).push(c@));
        }
        if stop_at_end && end >= n {
            assert(chunk_views(chunks@) =~= goal);
            return;
        }
        let next = next_window_start(i, n);
        proof {
            assert(chunk_views(chunks@) + windows(
                ls,
                next as int,
                chunks.len() as int,
                stop_at_end,
            ) =~= chunk_views(before) + windows(ls, i as int, before.len() as int, stop_at_end));
        }
        i = next;
    }
    assert(chunk_views(chunks@) =~= goal);
}

/// A line-window chunk over `n` lines: it spans lines within `1..=n`, at
/// most `CHUNK_LINES` of them; its text is not blank and fits in
/// `MAX_CHUNK_BYTES`; it has no symbol kind.
pub open spec fn window_chunk_ok(c: ChunkSpec, n: int) -> bool {
    &&& 1 <= c.start_line <= c.end_line <= n
    &&& c.end_line - c.start_line < CHUNK_LINES
    &&& !is_blank(c.content)
    &&& utf8_len(c.content) <= MAX_CHUNK_BYTES
    &&& c.symbol_kind is None
}

proof fn lemma_windows_shape(ls: Seq<Seq<char>>, i: int, produced: int, stop_at_end: bool)
    requires
        0 <= i,
        0 <= produced <= MAX_CHUNKS_PER_FILE,
        ls.len() <= i32::MAX,
    ensures
        windows(ls, i, produced, stop_at_end).len() <= MAX_CHUNKS_PER_FILE - produced,
        forall|k: int|
            0 <= k < windows(ls, i, produced, stop_at_end).len() ==> (#[trigger] windows(
                ls,
                i,
                produced,
                stop_at_end,
            )[k]).index == produced + k && window_chunk_ok(
                windows(ls, i, produced, stop_at_end)[k],
                ls.len() as int,
            ),
    decreases ls.len() - i,
{
    if !(i < 0 || i >= ls.len() || produced >= MAX_CHUNKS_PER_FILE) {
        let n = ls.len() as int;
        let end = if i + CHUNK_LINES < n {
            i + CHUNK_LINES
        } else {
            n
        };
        let text = join_nl(ls.subrange(i, end));
        let nxt = next_start(i, n);
        if is_blank(text) || utf8_len(text) > MAX_CHUNK_BYTES {
            lemma_windows_shape(ls, nxt, produced, stop_at_end);
        } else if stop_at_end && end >= n {
        } else {
            lemma_windows_shape(ls, nxt, produced + 1, stop_at_end);
            let w = windows(ls, i, produced, stop_at_end);
            let rest = windows(ls, nxt, produced + 1, stop_at_end);
            assert forall|k: int| 0 <= k < w.len() implies (#[trigger] w[k]).index == produced + k
                && window_chunk_ok(w[k], n) by {
                if k > 0 {
                    assert(w[k] == rest[k - 1]);
                }
            }
        }
    }
}

proof fn lemma_windows_numbered(ls: Seq<Seq<char>>, i: int, produced: int, stop_at_end: bool)
    requires
        0 <= produced <= MAX_CHUNKS_PER_FILE,
    ensures
        windows(ls, i, produced, stop_at_end).len() <= MAX_CHUNKS_PER_FILE - produced,
        forall|k: int|
            0 <= k < windows(ls, i, produced, stop_at_end).len() ==> (#[trigger] windows(
                ls,
                i,
                produced,
                stop_at_end,
            )[k]).index == produced + k,
    decreases ls.len() - i,
{
    if !(i < 0 || i >= ls.len() || produced >= MAX_CHUNKS_PER_FILE) {
        let n = ls.len() as int;
        let end = if i + CHUNK_LINES < n {
            i + CHUNK_LINES
        } else {
            n
        };
        let text = join_nl(ls.subrange(i, end));
        let nxt = next_start(i, n);
        if is_blank(text) || utf8_len(text) > MAX_CHUNK_BYTES {
            lemma_windows_numbered(ls, nxt, produced, stop_at_end);
        } else if stop_at_end && end >= n {
        } else {
            lemma_windows_numbered(ls, nxt, produced + 1, stop_at_end);
            let w = windows(ls, i, produced, stop_at_end);
            let rest = windows(ls, nxt, produced + 1, stop_at_end);
            assert forall|k: int| 0 <= k < w.len() implies (#[trigger] w[k]).index == produced + k by {
                if k > 0 {
                    assert(w[k] == rest[k - 1]);
                }
            }
        }
    }
}

/// Line windows never exceed the per-file cap, are numbered from zero, and
/// each spans at most `CHUNK_LINES` lines of the file with a non-blank text
/// that fits in `MAX_CHUNK_BYTES` (for files of at most `i32::MAX` lines,
/// whose line numbers fit the chunk's `i32` fields).
pub proof fn lemma_chunk_lines_shape(source: Seq<char>)
    requires
        lines_of(source).len() <= i32::MAX,
    ensures
        spec_chunk_lines(source).len() <= MAX_CHUNKS_PER_FILE,
        forall|k: int|
            0 <= k < spec_chunk_lines(source).len() ==> (#[trigger] spec_chunk_lines(source)[k]).index
                == k && window_chunk_ok(spec_chunk_lines(source)[k], lines_of(source).len() as int),
{
    lemma_windows_shape(lines_of(source), 0, 0, true);
}

proof fn lemma_windows_stop(ls: Seq<Seq<char>>, i: int, produced: int)
    requires
        0 <= i,
        0 <= produced <= MAX_CHUNKS_PER_FILE,
        ls.len() <= i32::MAX,
    ensures
        forall|k: int|
            0 <= k < windows(ls, i, produced, true).len() ==> (#[trigger] windows(ls, i, produced, true)[k]).start_line
                >= i + 1,
        forall|k: int|
            0 <= k < windows(ls, i, produced, true).len() - 1 ==> (#[trigger] windows(ls, i, produced, true)[k]).end_line
                < ls.len() && windows(ls, i, produced, true)[k].start_line < windows(
                ls,
                i,
                produced,
                true,
            )[k + 1].start_line,
    decreases ls.len() - i,
{
    if !(i < 0 || i >= ls.len() || produced >= MAX_CHUNKS_PER_FILE) {
        let n = ls.len() as int;
        let end = if i + CHUNK_LINES < n {
            i + CHUNK_LINES
        } else {
            n
        };
        let text = join_nl(ls.subrange(i, end));
        let nxt = next_start(i, n);
        let w = windows(ls, i, produced, true);
        if is_blank(text) || utf8_len(text) > MAX_CHUNK_BYTES {
            lemma_windows_stop(ls, nxt, produced);
        } else if end >= n {
            assert(w.len() == 1);
        } else {
            lemma_windows_stop(ls, nxt, produced + 1);
            let rest = windows(ls, nxt, produced + 1, true);
            assert(w == seq![w[0]] + rest);
            assert(w[0].start_line == i + 1);
            assert(w[0].end_line == end);
            assert forall|k: int| 0 <= k < w.len() implies (#[trigger] w[k]).start_line >= i + 1 by {
                if k > 0 {
                    assert(w[k] == rest[k - 1]);
                }
            }
            assert forall|k: int| 0 <= k < w.len() - 1 implies (#[trigger] w[k]).end_line < n
                && w[k].start_line < w[k + 1].start_line by {
                assert(w[k + 1] == rest[k]);
                if k > 0 {
                    assert(w[k] == rest[k - 1]);
                }
            }
        }
    }
}

/// The window that reaches the last line is the last chunk: every chunk but
/// the last ends before the file's last line, and each chunk starts after
/// the one before it (for files of at most `i32::MAX` lines, whose line
/// numbers fit the chunk's fields).
pub proof fn lemma_chunk_lines_stop_at_last_line(source: Seq<char>)
    requires
        lines_of(source).len() <= i32::MAX,
    ensures
        forall|k: int|
            0 <= k < spec_chunk_lines(source).len() - 1 ==> (#[trigger] spec_chunk_lines(source)[k]).end_line
                < lines_of(source).len() && spec_chunk_lines(source)[k].start_line < spec_chunk_lines(
                source,
            )[k + 1].start_line,
{
    lemma_windows_stop(lines_of(source), 0, 0);
}

/// The line-window chunks of a source text.
pub open spec fn spec_chunk_lines(source: Seq<char>) -> Seq<ChunkSpec> {
    windows(lines_of(source), 0, 0, true)
}

/// Split a file into overlapping windows of `CHUNK_LINES` lines.
pub fn chunk_lines(source: &str) -> (r: Vec<Chunk>)
    ensures
        chunk_views(r@) == spec_chunk_lines(source@),
{
    let chars = chars_of(source);
    let lines = split_lines(&chars);
    let mut chunks: Vec<Chunk> = Vec::new();
    push_windows(&lines, 0, &mut chunks, true);
    assert(chunk_views(chunks@) =~= spec_chunk_lines(source@));
    chunks
}

// ── Symbol chunks ─────────────────────────────────────────────────────────────

/// Languages for which a symbol extractor exists.
pub open spec fn is_symbol_language(language: Seq<char>) -> bool {
    ||| language == "typescript"@
    ||| language == "javascript"@
    ||| language == "python"@
    ||| language == "rust"@
    ||| language == "haskell"@
    ||| language == "latex"@
    ||| language == "nix"@
    ||| language == "c"@
    ||| language == "cpp"@
    ||| language == "java"@
    ||| language == "kotlin"@
}

fn lit_eq(v: &Vec<char>, lit: &str) -> (r: bool)
    ensures
        r == (v@ == lit@),
{
    let l = chars_of(lit);
    chars_eq(v, &l)
}

/// Whether a symbol extractor exists for `language`.
pub fn symbol_language(language: &str) -> (r: bool)
    ensures
        r == is_symbol_language(language@),
{
    let l = chars_of(language);
    lit_eq(&l, "typescript") || lit_eq(&l, "javascript") || lit_eq(&l, "python") || lit_eq(
        &l,
        "rust",
    ) || lit_eq(&l, "haskell") || lit_eq(&l, "latex") || lit_eq(&l, "nix") || lit_eq(&l, "c")
        || lit_eq(&l, "cpp") || lit_eq(&l, "java") || lit_eq(&l, "kotlin")
}

/// Mathematical model of a symbol.
pub struct SymbolSpec {
    pub kind: Seq<char>,
    pub content: Seq<char>,
    pub start_line: int,
    pub end_line: int,
}

impl View for Symbol {
    type V = SymbolSpec;

    open spec fn view(&self) -> SymbolSpec {
        SymbolSpec {
            kind: self.kind@,
            content: self.content@,
            start_line: self.start_line as int,
            end_line: self.end_line as int,
        }
    }
}

/// Views of a sequence of symbols.
pub open spec fn symbol_views(ss: Seq<Symbol>) -> Seq<SymbolSpec> {
    Seq::new(ss.len(), |i: int| ss[i]@)
}

/// Largest end line among the symbols (0 for none).
pub open spec fn max_end_line(ss: Seq<SymbolSpec>) -> int
    decreases ss.len(),
{
    if ss.len() == 0 {
        0
    } else {
        let m = max_end_line(ss.drop_last());
        if ss.last().end_line > m {
            ss.last().end_line
        } else {
            m
        }
    }
}

/// The chunk of the `i`-th symbol.
pub open spec fn symbol_chunk(s: SymbolSpec, i: int) -> ChunkSpec {
    ChunkSpec {
        index: i as i32,
        content: s.content,
        start_line: s.start_line as i32,
        end_line: s.end_line as i32,
        symbol_kind: Some(s.kind),
    }
}

/// The chunks of a source text in `language`, given the symbols that the
/// language's extractor found in it: without symbols (or without an extractor
/// for the language) plain line windows; otherwise one chunk per symbol, up to
/// `MAX_CHUNKS_PER_FILE`, followed by line windows over an uncovered tail when
/// the symbols end more than `2 * CHUNK_LINES` lines before the end of the file.
pub open spec fn spec_make_chunks(source: Seq<char>, language: Seq<char>, syms: Seq<SymbolSpec>) -> Seq<
    ChunkSpec,
> {
    if !is_symbol_language(language) || syms.len() == 0 {
        spec_chunk_lines(source)
    } else {
        let ls = lines_of(source);
        let max_covered = max_end_line(syms);
        let n_head = if syms.len() < MAX_CHUNKS_PER_FILE {
            syms.len() as int
        } else {
            MAX_CHUNKS_PER_FILE as int
        };
        let head = Seq::new(n_head as nat, |i: int| symbol_chunk(syms[i], i));
        if max_covered + 2 * CHUNK_LINES < ls.len() && n_head < MAX_CHUNKS_PER_FILE {
            let start = if max_covered >= OVERLAP_LINES {
                max_covered - OVERLAP_LINES
            } else {
                0
            };
            head + windows(ls, start, n_head, false)
        } else {
            head
        }
    }
}

proof fn lemma_max_end_line_nonneg(ss: Seq<SymbolSpec>)
    ensures
        max_end_line(ss) >= 0,
    decreases ss.len(),
{
    if ss.len() > 0 {
        lemma_max_end_line_nonneg(ss.drop_last());
    }
}

/// A file's chunks never exceed `MAX_CHUNKS_PER_FILE` and are numbered 0, 1,
/// 2, … with no gaps; a file in a language without a symbol extractor, or in
/// which no symbol was found, is cut into plain line windows.
pub proof fn lemma_make_chunks_numbered(source: Seq<char>, language: Seq<char>, syms: Seq<SymbolSpec>)
    ensures
        spec_make_chunks(source, language, syms).len() <= MAX_CHUNKS_PER_FILE,
        forall|k: int|
            0 <= k < spec_make_chunks(source, language, syms).len() ==> (#[trigger] spec_make_chunks(
                source,
                language,
                syms,
            )[k]).index == k,
        !is_symbol_language(language) || syms.len() == 0 ==> spec_make_chunks(source, language, syms)
            == spec_chunk_lines(source),
{
    lemma_windows_numbered(lines_of(source), 0, 0, true);
    if is_symbol_language(language) && syms.len() > 0 {
        let ls = lines_of(source);
        let max_covered = max_end_line(syms);
        lemma_max_end_line_nonneg(syms);
        let n_head = if syms.len() < MAX_CHUNKS_PER_FILE {
            syms.len() as int
        } else {
            MAX_CHUNKS_PER_FILE as int
        };
        let head = Seq::new(n_head as nat, |i: int| symbol_chunk(syms[i], i));
        let r = spec_make_chunks(source, language, syms);
        if max_covered + 2 * CHUNK_LINES < ls.len() && n_head < MAX_CHUNKS_PER_FILE {
            let start = if max_covered >= OVERLAP_LINES {
                max_covered - OVERLAP_LINES
            } else {
                0
            };
            lemma_windows_numbered(ls, start, n_head, false);
            let w = windows(ls, start, n_head, false);
            assert(r == head + w);
            assert forall|k: int| 0 <= k < r.len() implies (#[trigger] r[k]).index == k by {
                if k >= n_head {
                    assert(r[k] == w[k - n_head]);
                }
            }
        }
    }
}

/// Split a file into chunks: one per extracted symbol where the language has
/// a symbol extractor and it found symbols, line windows otherwise.
/// `symbols` are the symbols that the extractor for `language` found in `source`.
pub fn make_chunks(source: &str, language: &str, symbols: &[Symbol]) -> (r: Vec<Chunk>)
    requires
        is_symbol_language(language@) && symbols@.len() > 0 ==> max_end_line(
            symbol_views(symbols@),
        ) + 2 * CHUNK_LINES <= usize::MAX,
    ensures
        chunk_views(r@) == spec_make_chunks(source@, language@, symbol_views(symbols@)),
{
    if !symbol_language(language) || symbols.len() == 0 {
        return chunk_lines(source);
    }
    let ghost ss = symbol_views(symbols@);
    let chars = chars_of(source);
    let lines = split_lines(&chars);
    let total_lines = lines.len();
    // Largest end line over all symbols.
    let mut max_covered: usize = 0;
    let mut j: usize = 0;
    while j < symbols.len()
        invariant
            j <= symbols.len(),
            ss == symbol_views(symbols@),
            max_covered == max_end_line(ss.take(j as int)),
        decreases symbols.len() - j,
    {
        proof {
            assert(ss.take(j + 1).drop_last() =~= ss.take(j as int));
        }
        if symbols[j].end_line > max_covered {
            max_covered = symbols[j].end_line;
        }
        j = j + 1;
    }
    assert(ss.take(j as int) =~= ss);
    let mut chunks: Vec<Chunk> = Vec::new();
    let mut i: usize = 0;
    while i < symbols.len() && i < MAX_CHUNKS_PER_FILE
        invariant
            i <= symbols.len(),
            i <= MAX_CHUNKS_PER_FILE,
            ss == symbol_views(symbols@),
            chunks.len() == i,
            chunk_views(chunks@) == Seq::new(i as nat, |k: int| symbol_chunk(ss[k], k)),
        decreases symbols.len() - i,
    {
        let s = &symbols[i];
        let c = Chunk {
            index: i as i32,
            content: s.content.clone(),
            start_line: s.start_line as i32,
            end_line: s.end_line as i32,
            symbol_kind: Some(s.kind.clone()),
        };
        let ghost before = chunks@;
        chunks.push(c);
        proof {
            assert(ss[i as int] == s@);
            assert(c@ == symbol_chunk(ss[i as int], i as int));
            assert forall|k: int| 0 <= k < i + 1 implies chunk_views(chunks@)[k] == symbol_chunk(
                ss[k],
                k,
            ) by {
                if k < i {
                    assert(chunks@[k] == before[k]);
                    assert(chunk_views(before)[k] == before[k]@);
                }
            }
            assert(chunk_views(chunks@) =~= Seq::new((i + 1) as nat, |k: int| symbol_chunk(ss[k], k)));
        }
        i = i + 1;
    }
    if max_covered + 2 * CHUNK_LINES < total_lines && chunks.len() < MAX_CHUNKS_PER_FILE {
        let start_from = max_covered.saturating_sub(OVERLAP_LINES);
        push_windows(&lines, start_from, &mut chunks, false);
    }
    chunks
}

// ── Literate Haskell ──────────────────────────────────────────────────────────

/// The code blocks of a `.lhs` source, in order.
pub open spec fn code_blocks_of(source: Seq<char>) -> Seq<BlockSpec> {
    spec_parse_blocks(source).filter(|b: BlockSpec| is_code_block(b))
}

/// The contents of blocks.
pub open spec fn contents(bs: Seq<BlockSpec>) -> Seq<Seq<char>> {
    bs.map_values(|b: BlockSpec| b.content)
}

/// The stripped code of a `.lhs` source: its code blocks joined with `'\n'`, so
/// that line offsets within each block are preserved.
pub open spec fn code_buffer(source: Seq<char>) -> Seq<char> {
    join_nl(contents(code_blocks_of(source)))
}

fn join_contents(blocks: &Vec<&LhsBlock>) -> (r: String)
    ensures
        r@ == join_nl(contents(block_ref_views(blocks@))),
{
    let ghost bs = contents(block_ref_views(blocks@));
    let mut out: Vec<char> = Vec::new();
    let mut i: usize = 0;
    assert(bs.take(0) =~= Seq::<Seq<char>>::empty());
    while i < blocks.len()
        invariant
            i <= blocks.len(),
            bs == contents(block_ref_views(blocks@)),
            out@ == join_nl(bs.take(i as int)),
        decreases blocks.len() - i,
    {
        if i > 0 {
            out.push('\n');
        }
        let content = chars_of(blocks[i].content.as_str());
        let ghost mid = out@;
        let mut k: usize = 0;
        while k < content.len()
            invariant
                k <= content.len(),
                out@ == mid + content@.take(k as int),
            decreases content.len() - k,
        {
            out.push(content[k]);
            k = k + 1;
            assert(out@ =~= mid + content@.take(k as int));
        }
        proof {
            assert(bs.take(i + 1).drop_last() =~= bs.take(i as int));
            assert(content@.take(k as int) =~= content@);
            assert(bs[i as int] == content@);
            assert(out@ =~= join_nl(bs.take(i + 1)));
        }
        i = i + 1;
    }
    assert(bs.take(i as int) =~= bs);
    string_of(&out)
}

/// The stripped code of a `.lhs` source (see [`code_buffer`]).
pub fn lhs_code_buffer(source: &str) -> (r: String)
    ensures
        r@ == code_buffer(source@),
{
    let parsed = parse_lhs(source);
    let code_blocks = parsed.code_blocks();
    join_contents(&code_blocks)
}

/// A chunk of the code buffer with its lines moved to the file lines that
/// the ranges `rs` map them to.
pub open spec fn relocate(c: ChunkSpec, rs: Seq<(int, int, int)>) -> ChunkSpec {
    ChunkSpec {
        index: c.index,
        content: c.content,
        start_line: map_line(rs, (c.start_line as usize) as int) as i32,
        end_line: map_line(rs, (c.end_line as usize) as int) as i32,
        symbol_kind: c.symbol_kind,
    }
}

/// The chunks of a `.lhs` source: the chunks of its stripped code, as Haskell,
/// with line numbers translated back to the original file.
pub open spec fn spec_make_lhs_chunks(source: Seq<char>, syms: Seq<SymbolSpec>) -> Seq<ChunkSpec> {
    let code = code_blocks_of(source);
    if code.len() == 0 {
        Seq::empty()
    } else {
        spec_make_chunks(code_buffer(source), "haskell"@, syms).map_values(
            |c: ChunkSpec| relocate(c, code_ranges(code)),
        )
    }
}

/// A `.lhs` file's chunks never exceed `MAX_CHUNKS_PER_FILE` and are
/// numbered 0, 1, 2, … with no gaps.
pub proof fn lemma_make_lhs_chunks_numbered(source: Seq<char>, syms: Seq<SymbolSpec>)
    ensures
        spec_make_lhs_chunks(source, syms).len() <= MAX_CHUNKS_PER_FILE,
        forall|k: int|
            0 <= k < spec_make_lhs_chunks(source, syms).len() ==> (#[trigger] spec_make_lhs_chunks(
                source,
                syms,
            )[k]).index == k,
{
    lemma_make_chunks_numbered(code_buffer(source), "haskell"@, syms);
}

/// Strip Literate Haskell markup and return code chunks with line numbers
/// translated back to the original `.lhs` file coordinates. `symbols` are the
/// symbols that the Haskell extractor found in the stripped code
/// ([`lhs_code_buffer`]).
pub fn make_lhs_chunks(source: &str, symbols: &[Symbol]) -> (r: Vec<Chunk>)
    requires
        lines_of(source@).len() < usize::MAX,
        symbols@.len() > 0 ==> max_end_line(symbol_views(symbols@)) + 2 * CHUNK_LINES
            <= usize::MAX,
    ensures
        chunk_views(r@) == spec_make_lhs_chunks(source@, symbol_views(symbols@)),
{
    let parsed = parse_lhs(source);
    let code_blocks = parsed.code_blocks();
    if code_blocks.len() == 0 {
        let r: Vec<Chunk> = Vec::new();
        assert(chunk_views(r@) =~= spec_make_lhs_chunks(source@, symbol_views(symbols@)));
        return r;
    }
    let stripped = join_contents(&code_blocks);
    let ghost all = spec_parse_blocks(source@);
    let ghost code = code_blocks_of(source@);
    let ghost n = lines_of(source@).len() as int;
    proof {
        lemma_parse_blocks_placed(source@);
        lemma_code_ranges_bounded(all, n);
        lemma_code_ranges_filter(all);
        assert(block_ref_views(code_blocks@) == code);
        if all.len() > 0 {
            assert(crate::lhs::block_placed(all[all.len() - 1], n));
        }
    }
    let line_map = LineMap::from_code_blocks(code_blocks.as_slice());
    let chunks = make_chunks(stripped.as_str(), "haskell", symbols);
    let ghost rs = line_map@;
    let mut out: Vec<Chunk> = Vec::new();
    let mut i: usize = 0;
    while i < chunks.len()
        invariant
            i <= chunks.len(),
            out.len() == i,
            rs == line_map@,
            rs == code_ranges(code),
            forall|k: int|
                0 <= k < rs.len() ==> (#[trigger] rs[k]).1 + rs[k].2 - 1 <= usize::MAX && rs[k].2
                    >= 1,
            chunk_views(out@) == chunk_views(chunks@).take(i as int).map_values(
                |c: ChunkSpec| relocate(c, rs),
            ),
        decreases chunks.len() - i,
    {
        let c = &chunks[i];
        proof {
            lemma_map_line_bounded(rs, (c.start_line as usize) as int, usize::MAX as int);
            lemma_map_line_bounded(rs, (c.end_line as usize) as int, usize::MAX as int);
        }
        let start_line = line_map.file_line(c.start_line as usize) as i32;
        let end_line = line_map.file_line(c.end_line as usize) as i32;
        let symbol_kind = match &c.symbol_kind {
            Some(k) => Some(k.clone()),
            None => None,
        };
        let moved = Chunk {
            index: c.index,
            content: c.content.clone(),
            start_line,
            end_line,
            symbol_kind,
        };
        let ghost before = out@;
        out.push(moved);
        proof {
            assert(chunk_views(chunks@)[i as int] == c@);
            assert(moved@ == relocate(c@, rs));
            let target = chunk_views(chunks@).take(i + 1).map_values(|c: ChunkSpec| relocate(c, rs));
            assert forall|k: int| 0 <= k < i + 1 implies chunk_views(out@)[k] == target[k] by {
                if k < i {
                    assert(out@[k] == before[k]);
                    assert(chunk_views(before)[k] == before[k]@);
                }
            }
            assert(chunk_views(out@) =~= chunk_views(chunks@).take(i + 1).map_values(
                |c: ChunkSpec| relocate(c, rs),
            ));
        }
        i = i + 1;
    }
    assert(chunk_views(chunks@).take(i as int) =~= chunk_views(chunks@));
    out
}

} // verus!
