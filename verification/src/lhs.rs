//! Pre-processor for Literate Haskell Source (`.lhs`) files.
//!
//! Strips Bird-style (`> ` prefix) and LaTeX-style (`\begin{code}...\end{code}`)
//! markup, splitting the file into alternating [`BlockKind::Code`] and
//! [`BlockKind::Prose`] blocks with original file line numbers preserved.
use vstd::prelude::*;

use crate::text::{
    chars_eq, chars_of, drop_each, has_prefix, join_nl, join_range, join_range_drop,
    lemma_join_nl_count, lemma_lines_no_nl, lines_of, nl_count, no_nl, split_lines, starts_with,
    string_of, views,
};

verus! {

broadcast use vstd::seq_lib::group_seq_properties;

// ── Public types ──────────────────────────────────────────────────────────────

#[derive(Debug, Clone, Copy, PartialEq, Eq, Structural)]
/// How a `.lhs` file marks its code.
pub enum LhsStyle {
    Bird,
    LaTeX,
}

#[derive(Debug, Clone, Copy, PartialEq, Eq, Structural)]
/// Whether a block is code or prose.
pub enum BlockKind {
    Code,
    Prose,
}

#[derive(Debug, Clone)]
/// A block of a literate Haskell file.
pub struct LhsBlock {
    pub kind: BlockKind,
    /// Stripped content: Bird `> ` prefix removed; LaTeX delimiters excluded.
    pub content: String,
    /// 1-indexed line number of the first content line in the original file.
    pub start_line: usize,
    /// 1-indexed line number of the last content line in the original file.
    pub end_line: usize,
}

/// Mathematical model of a block.
pub struct BlockSpec {
    pub kind: BlockKind,
    pub content: Seq<char>,
    pub start_line: int,
    pub end_line: int,
}

impl View for LhsBlock {
    type V = BlockSpec;

    open spec fn view(&self) -> BlockSpec {
        BlockSpec {
            kind: self.kind,
            content: self.content@,
            start_line: self.start_line as int,
            end_line: self.end_line as int,
        }
    }
}

#[derive(Debug, Clone)]
/// A parsed literate Haskell file: its style and its blocks, in file order.
pub struct ParsedLhs {
    pub style: LhsStyle,
    pub blocks: Vec<LhsBlock>,
}

/// Views of a sequence of blocks.
pub open spec fn block_views(bs: Seq<LhsBlock>) -> Seq<BlockSpec> {
    Seq::new(bs.len(), |i: int| bs[i]@)
}

/// Views of a sequence of block references.
pub open spec fn block_ref_views(bs: Seq<&LhsBlock>) -> Seq<BlockSpec> {
    Seq::new(bs.len(), |i: int| bs[i]@)
}

/// The block is code.
pub open spec fn is_code_block(b: BlockSpec) -> bool {
    b.kind == BlockKind::Code
}

/// The block is prose.
pub open spec fn is_prose_block(b: BlockSpec) -> bool {
    b.kind == BlockKind::Prose
}

impl ParsedLhs {
    /// Model of the parse: its style and its blocks.
    pub open spec fn blocks_view(&self) -> Seq<BlockSpec> {
        block_views(self.blocks@)
    }

    /// The code blocks, in order.
    pub fn code_blocks(&self) -> (r: Vec<&LhsBlock>)
        ensures
            block_ref_views(r@) == self.blocks_view().filter(|b: BlockSpec| is_code_block(b)),
    {
        let r = self.blocks_of_kind(BlockKind::Code);
        assert((|b: BlockSpec| b.kind == BlockKind::Code) =~= (|b: BlockSpec| is_code_block(b)));
        r
    }

    /// The prose blocks, in order.
    pub fn prose_blocks(&self) -> (r: Vec<&LhsBlock>)
        ensures
            block_ref_views(r@) == self.blocks_view().filter(|b: BlockSpec| is_prose_block(b)),
    {
        let r = self.blocks_of_kind(BlockKind::Prose);
        assert((|b: BlockSpec| b.kind == BlockKind::Prose) =~= (|b: BlockSpec| is_prose_block(b)));
        r
    }

    fn blocks_of_kind(&self, kind: BlockKind) -> (r: Vec<&LhsBlock>)
        ensures
            block_ref_views(r@) == self.blocks_view().filter(|b: BlockSpec| b.kind == kind),
    {
        let ghost pred = |b: BlockSpec| b.kind == kind;
        let mut out: Vec<&LhsBlock> = Vec::new();
        let mut i: usize = 0;
        while i < self.blocks.len()
            invariant
                i <= self.blocks.len(),
                pred == (|b: BlockSpec| b.kind == kind),
                block_ref_views(out@) == self.blocks_view().take(i as int).filter(pred),
            decreases self.blocks.len() - i,
        {
            let b = &self.blocks[i];
            proof {
                reveal_with_fuel(Seq::filter, 1);
                assert(self.blocks_view().take(i + 1).drop_last() =~= self.blocks_view().take(
                    i as int,
                ));
            }
            if b.kind == kind {
                out.push(b);
                assert(block_ref_views(out@) =~= self.blocks_view().take(i + 1).filter(pred));
            } else {
                assert(block_ref_views(out@) =~= self.blocks_view().take(i + 1).filter(pred));
            }
            i = i + 1;
        }
        assert(self.blocks_view().take(i as int) =~= self.blocks_view());
        out
    }

    /// Whether any block is code.
    pub fn has_code(&self) -> (r: bool)
        ensures
            r == exists|i: int| 0 <= i < self.blocks@.len() && self.blocks@[i].kind == BlockKind::Code,
    {
        let mut i: usize = 0;
        while i < self.blocks.len()
            invariant
                i <= self.blocks.len(),
                forall|j: int| 0 <= j < i ==> self.blocks@[j].kind != BlockKind::Code,
            decreases self.blocks.len() - i,
        {
            if self.blocks[i].kind == BlockKind::Code {
                return true;
            }
            i = i + 1;
        }
        false
    }
}

// ── Style detection ───────────────────────────────────────────────────────────

/// The line `\begin{code}`.
pub open spec fn begin_code() -> Seq<char> {
    seq!['\\', 'b', 'e', 'g', 'i', 'n', '{', 'c', 'o', 'd', 'e', '}']
}

/// The line `\end{code}`.
pub open spec fn end_code() -> Seq<char> {
    seq!['\\', 'e', 'n', 'd', '{', 'c', 'o', 'd', 'e', '}']
}

fn begin_code_line() -> (r: Vec<char>)
    ensures
        r@ == begin_code(),
{
    let r = vec!['\\', 'b', 'e', 'g', 'i', 'n', '{', 'c', 'o', 'd', 'e', '}'];
    assert(r@ =~= begin_code());
    r
}

fn end_code_line() -> (r: Vec<char>)
    ensures
        r@ == end_code(),
{
    let r = vec!['\\', 'e', 'n', 'd', '{', 'c', 'o', 'd', 'e', '}'];
    assert(r@ =~= end_code());
    r
}

/// The style of a source: LaTeX when some line is exactly `\begin{code}`.
pub open spec fn spec_detect_style(source: Seq<char>) -> LhsStyle {
    if exists|i: int| 0 <= i < lines_of(source).len() && lines_of(source)[i] == begin_code() {
        LhsStyle::LaTeX
    } else {
        LhsStyle::Bird
    }
}

fn detect_style_lines(lines: &Vec<Vec<char>>) -> (r: LhsStyle)
    ensures
        r == (if exists|i: int| 0 <= i < lines@.len() && lines@[i]@ == begin_code() {
            LhsStyle::LaTeX
        } else {
            LhsStyle::Bird
        }),
{
    let begin = begin_code_line();
    let mut i: usize = 0;
    while i < lines.len()
        invariant
            i <= lines.len(),
            begin@ == begin_code(),
            forall|j: int| 0 <= j < i ==> lines@[j]@ != begin_code(),
        decreases lines.len() - i,
    {
        if chars_eq(&lines[i], &begin) {
            return LhsStyle::LaTeX;
        }
        i = i + 1;
    }
    LhsStyle::Bird
}

proof fn lemma_style_of_lines(source: Seq<char>, lines: Seq<Vec<char>>)
    requires
        views(lines) == lines_of(source),
    ensures
        spec_detect_style(source) == (if exists|i: int|
            0 <= i < lines.len() && lines[i]@ == begin_code() {
            LhsStyle::LaTeX
        } else {
            LhsStyle::Bird
        }),
{
    let ls = lines_of(source);
    assert forall|i: int| 0 <= i < lines.len() implies lines[i]@ == ls[i] by {
        assert(views(lines)[i] == lines[i]@);
    }
    if exists|i: int| 0 <= i < lines.len() && lines[i]@ == begin_code() {
        let i = choose|i: int| 0 <= i < lines.len() && lines[i]@ == begin_code();
        assert(0 <= i < ls.len() && ls[i] == begin_code());
    }
}

/// Returns [`LhsStyle::LaTeX`] if any line is exactly `\begin{code}`;
/// otherwise [`LhsStyle::Bird`].
pub fn detect_style(source: &str) -> (r: LhsStyle)
    ensures
        r == spec_detect_style(source@),
{
    let chars = chars_of(source);
    let lines = split_lines(&chars);
    let r = detect_style_lines(&lines);
    proof {
        lemma_style_of_lines(source@, lines@);
    }
    r
}

// ── Bird style ────────────────────────────────────────────────────────────────

/// GHC rule: `> ` (bird tick followed by exactly one space) starts a code line;
/// a bare `>` with no trailing space is prose.
pub open spec fn bird_kind(l: Seq<char>) -> BlockKind {
    if has_prefix(l, seq!['>', ' ']) {
        BlockKind::Code
    } else {
        BlockKind::Prose
    }
}

/// Index of the first line at or after `i` whose kind is not `k`.
pub open spec fn bird_run_end(ls: Seq<Seq<char>>, k: BlockKind, i: int) -> int
    decreases ls.len() - i,
{
    if i >= ls.len() {
        ls.len() as int
    } else if bird_kind(ls[i]) != k {
        i
    } else {
        bird_run_end(ls, k, i + 1)
    }
}

/// Bounds of [`bird_run_end`].
pub proof fn lemma_bird_run_end_bounds(ls: Seq<Seq<char>>, k: BlockKind, i: int)
    requires
        0 <= i <= ls.len(),
    ensures
        i <= bird_run_end(ls, k, i) <= ls.len(),
    decreases ls.len() - i,
{
    if i < ls.len() && bird_kind(ls[i]) == k {
        lemma_bird_run_end_bounds(ls, k, i + 1);
    }
}

proof fn lemma_bird_run_end_skip(ls: Seq<Seq<char>>, k: BlockKind, a: int, b: int)
    requires
        0 <= a <= b <= ls.len(),
        forall|j: int| a <= j < b ==> bird_kind(#[trigger] ls[j]) == k,
    ensures
        bird_run_end(ls, k, a) == bird_run_end(ls, k, b),
    decreases b - a,
{
    if a < b {
        lemma_bird_run_end_skip(ls, k, a + 1, b);
    }
}

/// The Bird-style blocks of the lines `ls` from line index `i` on: each maximal
/// run of lines of one kind is a block; code lines lose their `> ` prefix.
pub open spec fn bird_blocks_from(ls: Seq<Seq<char>>, i: int) -> Seq<BlockSpec>
    decreases ls.len() - i,
{
    if i < 0 || i >= ls.len() {
        Seq::empty()
    } else {
        let k = bird_kind(ls[i]);
        let e = bird_run_end(ls, k, i + 1);
        proof {
            lemma_bird_run_end_bounds(ls, k, i + 1);
        }
        seq![
            BlockSpec {
                kind: k,
                content: join_nl(
                    drop_each(ls.subrange(i, e), if k == BlockKind::Code { 2int } else { 0int }),
                ),
                start_line: i + 1,
                end_line: e,
            },
        ] + bird_blocks_from(ls, e)
    }
}

fn bird_line_kind(l: &Vec<char>) -> (r: BlockKind)
    ensures
        r == bird_kind(l@),
{
    let p = vec!['>', ' '];
    assert(p@ =~= seq!['>', ' ']);
    if starts_with(l, &p) {
        BlockKind::Code
    } else {
        BlockKind::Prose
    }
}

fn bird_block(lines: &Vec<Vec<char>>, a: usize, b: usize, k: BlockKind) -> (r: LhsBlock)
    requires
        a < b <= lines.len(),
        forall|j: int| a <= j < b ==> bird_kind(#[trigger] lines@[j]@) == k,
    ensures
        r@ == (BlockSpec {
            kind: k,
            content: join_nl(
                drop_each(
                    views(lines@).subrange(a as int, b as int),
                    if k == BlockKind::Code { 2int } else { 0int },
                ),
            ),
            start_line: a + 1,
            end_line: b as int,
        }),
{
    let d: usize = match k {
        BlockKind::Code => 2,
        BlockKind::Prose => 0,
    };
    assert forall|j: int| a <= j < b implies d <= (#[trigger] lines@[j])@.len() by {
        assert(bird_kind(lines@[j]@) == k);
    }
    let content = join_range_drop(lines, a, b, d);
    LhsBlock { kind: k, content: string_of(&content), start_line: a + 1, end_line: b }
}

fn parse_bird_style(lines: &Vec<Vec<char>>) -> (r: ParsedLhs)
    ensures
        r.style == LhsStyle::Bird,
        r.blocks_view() == bird_blocks_from(views(lines@), 0),
{
    let ghost ls = views(lines@);
    let mut blocks: Vec<LhsBlock> = Vec::new();
    let n = lines.len();
    if n == 0 {
        assert(block_views(blocks@) =~= bird_blocks_from(ls, 0));
        return ParsedLhs { style: LhsStyle::Bird, blocks };
    }
    let mut cs: usize = 0;
    let mut ck = bird_line_kind(&lines[0]);
    let mut i: usize = 1;
    while i < n
        invariant
            n == lines.len(),
            ls == views(lines@),
            cs < i <= n,
            ck == bird_kind(ls[cs as int]),
            forall|j: int| cs <= j < i ==> bird_kind(#[trigger] ls[j]) == ck,
            block_views(blocks@) + bird_blocks_from(ls, cs as int) == bird_blocks_from(ls, 0),
        decreases n - i,
    {
        let k = bird_line_kind(&lines[i]);
        if k != ck {
            proof {
                lemma_bird_run_end_skip(ls, ck, cs + 1, i as int);
                assert forall|j: int| cs <= j < i implies bird_kind(#[trigger] lines@[j]@) == ck by {
                    assert(ls[j] == lines@[j]@);
                }
            }
            let blk = bird_block(lines, cs, i, ck);
            proof {
                assert(block_views(blocks@.push(blk)) =~= block_views(blocks@).push(blk@));
                assert(block_views(blocks@.push(blk)) + bird_blocks_from(ls, i as int) =~= block_views(
                    blocks@,
                ) + bird_blocks_from(ls, cs as int));
            }
            blocks.push(blk);
            cs = i;
            ck = k;
        }
        i = i + 1;
    }
    proof {
        lemma_bird_run_end_skip(ls, ck, cs + 1, n as int);
        assert forall|j: int| cs <= j < n implies bird_kind(#[trigger] lines@[j]@) == ck by {
            assert(ls[j] == lines@[j]@);
        }
    }
    let blk = bird_block(lines, cs, n, ck);
    proof {
        assert(block_views(blocks@.push(blk)) =~= block_views(blocks@).push(blk@));
        assert(bird_blocks_from(ls, n as int) =~= Seq::<BlockSpec>::empty());
        assert(block_views(blocks@.push(blk)) =~= block_views(blocks@) + bird_blocks_from(
            ls,
            cs as int,
        ));
    }
    blocks.push(blk);
    ParsedLhs { style: LhsStyle::Bird, blocks }
}

// ── LaTeX style ───────────────────────────────────────────────────────────────

/// The delimiter line that ends the current segment: `\end{code}` inside code,
/// `\begin{code}` outside.
pub open spec fn delim(in_code: bool) -> Seq<char> {
    if in_code {
        end_code()
    } else {
        begin_code()
    }
}

/// Index of the first delimiter line at or after `i`, or `ls.len()`.
pub open spec fn next_delim(ls: Seq<Seq<char>>, i: int, in_code: bool) -> int
    decreases ls.len() - i,
{
    if i >= ls.len() {
        ls.len() as int
    } else if ls[i] == delim(in_code) {
        i
    } else {
        next_delim(ls, i + 1, in_code)
    }
}

/// Bounds of [`next_delim`].
pub proof fn lemma_next_delim_bounds(ls: Seq<Seq<char>>, i: int, in_code: bool)
    requires
        0 <= i <= ls.len(),
    ensures
        i <= next_delim(ls, i, in_code) <= ls.len(),
    decreases ls.len() - i,
{
    if i < ls.len() && ls[i] != delim(in_code) {
        lemma_next_delim_bounds(ls, i + 1, in_code);
    }
}

proof fn lemma_next_delim_skip(ls: Seq<Seq<char>>, a: int, b: int, in_code: bool)
    requires
        0 <= a <= b <= ls.len(),
        forall|j: int| a <= j < b ==> #[trigger] ls[j] != delim(in_code),
    ensures
        next_delim(ls, a, in_code) == next_delim(ls, b, in_code),
    decreases b - a,
{
    if a < b {
        lemma_next_delim_skip(ls, a + 1, b, in_code);
    }
}

/// The LaTeX-style blocks of the lines `ls` from line index `i` on, `in_code`
/// telling whether line `i` lies inside `\begin{code}`. The lines up to the next
/// delimiter form one block, if there are any; the delimiter line itself belongs
/// to no block. Lines after an unclosed `\begin{code}` are code.
pub open spec fn latex_blocks_from(ls: Seq<Seq<char>>, i: int, in_code: bool) -> Seq<BlockSpec>
    decreases ls.len() - i,
{
    if i < 0 || i > ls.len() {
        Seq::empty()
    } else {
        let d = next_delim(ls, i, in_code);
        proof {
            lemma_next_delim_bounds(ls, i, in_code);
        }
        let seg = if d > i {
            seq![
                BlockSpec {
                    kind: if in_code { BlockKind::Code } else { BlockKind::Prose },
                    content: join_nl(ls.subrange(i, d)),
                    start_line: i + 1,
                    end_line: d,
                },
            ]
        } else {
            Seq::empty()
        };
        if d >= ls.len() {
            seg
        } else {
            seg + latex_blocks_from(ls, d + 1, !in_code)
        }
    }
}

fn latex_block(lines: &Vec<Vec<char>>, a: usize, b: usize, in_code: bool) -> (r: LhsBlock)
    requires
        a < b <= lines.len(),
    ensures
        r@ == (BlockSpec {
            kind: if in_code { BlockKind::Code } else { BlockKind::Prose },
            content: join_nl(views(lines@).subrange(a as int, b as int)),
            start_line: a + 1,
            end_line: b as int,
        }),
{
    let content = join_range(lines, a, b);
    let kind = if in_code {
        BlockKind::Code
    } else {
        BlockKind::Prose
    };
    LhsBlock { kind, content: string_of(&content), start_line: a + 1, end_line: b }
}

fn parse_latex_style(lines: &Vec<Vec<char>>) -> (r: ParsedLhs)
    ensures
        r.style == LhsStyle::LaTeX,
        r.blocks_view() == latex_blocks_from(views(lines@), 0, false),
{
    let ghost ls = views(lines@);
    let begin = begin_code_line();
    let end = end_code_line();
    let mut blocks: Vec<LhsBlock> = Vec::new();
    let n = lines.len();
    let mut in_code = false;
    let mut s: usize = 0;
    let mut i: usize = 0;
    while i < n
        invariant
            n == lines.len(),
            ls == views(lines@),
            begin@ == begin_code(),
            end@ == end_code(),
            s <= i <= n,
            forall|j: int| s <= j < i ==> #[trigger] ls[j] != delim(in_code),
            block_views(blocks@) + latex_blocks_from(ls, s as int, in_code) == latex_blocks_from(
                ls,
                0,
                false,
            ),
        decreases n - i,
    {
        let is_delim = if in_code {
            chars_eq(&lines[i], &end)
        } else {
            chars_eq(&lines[i], &begin)
        };
        assert(is_delim == (ls[i as int] == delim(in_code)));
        if is_delim {
            proof {
                lemma_next_delim_skip(ls, s as int, i as int, in_code);
            }
            if i > s {
                let blk = latex_block(lines, s, i, in_code);
                proof {
                    assert(block_views(blocks@.push(blk)) =~= block_views(blocks@).push(blk@));
                    assert(block_views(blocks@.push(blk)) + latex_blocks_from(ls, i + 1, !in_code)
                        =~= block_views(blocks@) + latex_blocks_from(ls, s as int, in_code));
                }
                blocks.push(blk);
            } else {
                assert(block_views(blocks@) + latex_blocks_from(ls, i + 1, !in_code)
                    =~= block_views(blocks@) + latex_blocks_from(ls, s as int, in_code));
            }
            in_code = !in_code;
            s = i + 1;
        }
        i = i + 1;
    }
    proof {
        lemma_next_delim_skip(ls, s as int, n as int, in_code);
    }
    if n > s {
        let blk = latex_block(lines, s, n, in_code);
        proof {
            assert(block_views(blocks@.push(blk)) =~= block_views(blocks@).push(blk@));
            assert(block_views(blocks@.push(blk)) =~= block_views(blocks@) + latex_blocks_from(
                ls,
                s as int,
                in_code,
            ));
        }
        blocks.push(blk);
    } else {
        assert(block_views(blocks@) =~= block_views(blocks@) + latex_blocks_from(
            ls,
            s as int,
            in_code,
        ));
    }
    ParsedLhs { style: LhsStyle::LaTeX, blocks }
}

// ── Entry point ───────────────────────────────────────────────────────────────

/// The blocks of a `.lhs` source in the style that `spec_detect_style` finds.
pub open spec fn spec_parse_blocks(source: Seq<char>) -> Seq<BlockSpec> {
    match spec_detect_style(source) {
        LhsStyle::Bird => bird_blocks_from(lines_of(source), 0),
        LhsStyle::LaTeX => latex_blocks_from(lines_of(source), 0, false),
    }
}

/// Parse a `.lhs` source file into alternating code and prose blocks.
///
/// Style is auto-detected: LaTeX-style if any line is exactly `\begin{code}`,
/// Bird-style otherwise.
pub fn parse_lhs(source: &str) -> (r: ParsedLhs)
    ensures
        r.style == spec_detect_style(source@),
        r.blocks_view() == spec_parse_blocks(source@),
{
    let chars = chars_of(source);
    let lines = split_lines(&chars);
    let style = detect_style_lines(&lines);
    proof {
        lemma_style_of_lines(source@, lines@);
    }
    match style {
        LhsStyle::Bird => parse_bird_style(&lines),
        LhsStyle::LaTeX => parse_latex_style(&lines),
    }
}

// ── Placement of blocks ───────────────────────────────────────────────────────

/// A block lies within lines `1..=n` of the file and its content, cut at its
/// newlines, has no more lines than the file lines it spans.
pub open spec fn block_placed(b: BlockSpec, n: int) -> bool {
    &&& 1 <= b.start_line <= b.end_line <= n
    &&& nl_count(b.content) + 1 <= b.end_line - b.start_line + 1
}

/// Every block is placed, and each block ends before the next one starts.
pub open spec fn blocks_placed(bs: Seq<BlockSpec>, n: int) -> bool {
    &&& forall|k: int| 0 <= k < bs.len() ==> block_placed(#[trigger] bs[k], n)
    &&& forall|k: int| 0 <= k < bs.len() - 1 ==> #[trigger] bs[k].end_line < bs[k + 1].start_line
}

proof fn lemma_placed_cons(b: BlockSpec, rest: Seq<BlockSpec>, n: int)
    requires
        block_placed(b, n),
        blocks_placed(rest, n),
        rest.len() > 0 ==> b.end_line < rest[0].start_line,
    ensures
        blocks_placed(seq![b] + rest, n),
{
    let bs = seq![b] + rest;
    assert forall|k: int| 0 <= k < bs.len() implies block_placed(#[trigger] bs[k], n) by {
        if k > 0 {
            assert(bs[k] == rest[k - 1]);
        }
    }
    assert forall|k: int| 0 <= k < bs.len() - 1 implies #[trigger] bs[k].end_line < bs[k
        + 1].start_line by {
        if k > 0 {
            assert(bs[k] == rest[k - 1]);
            assert(bs[k + 1] == rest[k]);
        }
    }
}

proof fn lemma_drop_each_no_nl(xs: Seq<Seq<char>>, d: int)
    requires
        forall|k: int| 0 <= k < xs.len() ==> no_nl(#[trigger] xs[k]),
        forall|k: int| 0 <= k < xs.len() ==> d <= (#[trigger] xs[k]).len(),
        d >= 0,
    ensures
        forall|k: int| 0 <= k < xs.len() ==> no_nl(#[trigger] drop_each(xs, d)[k]),
{
    assert forall|k: int| 0 <= k < xs.len() implies no_nl(#[trigger] drop_each(xs, d)[k]) by {
        let x = xs[k];
        assert(drop_each(xs, d)[k] == x.skip(d));
        assert(d <= x.len());
        assert forall|j: int| 0 <= j < x.skip(d).len() implies #[trigger] x.skip(d)[j] != '\n' by {
            assert(x.skip(d)[j] == x[j + d]);
        }
    }
}

proof fn lemma_bird_run_kinds(ls: Seq<Seq<char>>, k: BlockKind, i: int)
    requires
        0 <= i <= ls.len(),
    ensures
        forall|j: int| i <= j < bird_run_end(ls, k, i) ==> bird_kind(#[trigger] ls[j]) == k,
    decreases ls.len() - i,
{
    if i < ls.len() && bird_kind(ls[i]) == k {
        lemma_bird_run_kinds(ls, k, i + 1);
    }
}

proof fn lemma_bird_placed(ls: Seq<Seq<char>>, i: int)
    requires
        0 <= i <= ls.len(),
        forall|k: int| 0 <= k < ls.len() ==> no_nl(#[trigger] ls[k]),
    ensures
        blocks_placed(bird_blocks_from(ls, i), ls.len() as int),
        forall|k: int|
            0 <= k < bird_blocks_from(ls, i).len() ==> #[trigger] bird_blocks_from(
                ls,
                i,
            )[k].start_line > i,
    decreases ls.len() - i,
{
    if i < ls.len() {
        let k = bird_kind(ls[i]);
        let e = bird_run_end(ls, k, i + 1);
        lemma_bird_run_end_bounds(ls, k, i + 1);
        lemma_bird_placed(ls, e);
        let d = if k == BlockKind::Code {
            2int
        } else {
            0int
        };
        let sub = ls.subrange(i, e);
        assert forall|m: int| 0 <= m < sub.len() implies no_nl(#[trigger] sub[m]) by {
            assert(sub[m] == ls[i + m]);
        }
        lemma_bird_run_kinds(ls, k, i + 1);
        assert forall|m: int| 0 <= m < sub.len() implies d <= (#[trigger] sub[m]).len() by {
            assert(sub[m] == ls[i + m]);
            if m > 0 {
                assert(bird_kind(ls[i + m]) == k);
            }
        }
        lemma_drop_each_no_nl(sub, d);
        lemma_join_nl_count(drop_each(sub, d));
        let b = BlockSpec {
            kind: k,
            content: join_nl(drop_each(sub, d)),
            start_line: i + 1,
            end_line: e,
        };
        let rest = bird_blocks_from(ls, e);
        lemma_placed_cons(b, rest, ls.len() as int);
        assert(bird_blocks_from(ls, i) == seq![b] + rest);
        assert forall|m: int| 0 <= m < bird_blocks_from(ls, i).len() implies #[trigger] bird_blocks_from(
            ls,
            i,
        )[m].start_line > i by {
            if m > 0 {
                assert(bird_blocks_from(ls, i)[m] == rest[m - 1]);
            }
        }
    }
}

proof fn lemma_latex_placed(ls: Seq<Seq<char>>, i: int, in_code: bool)
    requires
        0 <= i <= ls.len(),
        forall|k: int| 0 <= k < ls.len() ==> no_nl(#[trigger] ls[k]),
    ensures
        blocks_placed(latex_blocks_from(ls, i, in_code), ls.len() as int),
        forall|k: int|
            0 <= k < latex_blocks_from(ls, i, in_code).len() ==> #[trigger] latex_blocks_from(
                ls,
                i,
                in_code,
            )[k].start_line > i,
    decreases ls.len() - i,
{
    let d = next_delim(ls, i, in_code);
    lemma_next_delim_bounds(ls, i, in_code);
    let rest = if d >= ls.len() {
        Seq::<BlockSpec>::empty()
    } else {
        latex_blocks_from(ls, d + 1, !in_code)
    };
    if d < ls.len() {
        lemma_latex_placed(ls, d + 1, !in_code);
    }
    if d > i {
        let sub = ls.subrange(i, d);
        assert forall|m: int| 0 <= m < sub.len() implies no_nl(#[trigger] sub[m]) by {
            assert(sub[m] == ls[i + m]);
        }
        lemma_join_nl_count(sub);
        let b = BlockSpec {
            kind: if in_code {
                BlockKind::Code
            } else {
                BlockKind::Prose
            },
            content: join_nl(sub),
            start_line: i + 1,
            end_line: d,
        };
        lemma_placed_cons(b, rest, ls.len() as int);
        assert(latex_blocks_from(ls, i, in_code) =~= seq![b] + rest);
        assert forall|m: int|
            0 <= m < latex_blocks_from(ls, i, in_code).len() implies #[trigger] latex_blocks_from(
            ls,
            i,
            in_code,
        )[m].start_line > i by {
            if m > 0 {
                assert(latex_blocks_from(ls, i, in_code)[m] == rest[m - 1]);
            }
        }
    } else {
        assert(latex_blocks_from(ls, i, in_code) =~= rest);
    }
}

/// The parsed blocks lie in order within the file's lines, each ending before
/// the next begins, and each block's content has no more lines than the file
/// lines the block spans: line numbers of the original file are preserved.
pub proof fn lemma_parse_blocks_placed(source: Seq<char>)
    ensures
        blocks_placed(spec_parse_blocks(source), lines_of(source).len() as int),
{
    lemma_lines_no_nl(source, 0);
    match spec_detect_style(source) {
        LhsStyle::Bird => lemma_bird_placed(lines_of(source), 0),
        LhsStyle::LaTeX => lemma_latex_placed(lines_of(source), 0, false),
    }
}

// ── LineMap ───────────────────────────────────────────────────────────────────

/// Number of lines a code block occupies in the code buffer, where the blocks
/// are joined by newlines: its content cut at every newline, so one more than
/// its newlines (a content ending in a newline adds an empty line).
pub open spec fn block_line_count(content: Seq<char>) -> int {
    nl_count(content) as int + 1
}

/// First code-buffer line after the ranges `rs`.
pub open spec fn next_buf_line(rs: Seq<(int, int, int)>) -> int {
    if rs.len() == 0 {
        1
    } else {
        rs.last().0 + rs.last().2
    }
}

/// The ranges `(code_buf_start, file_start, line_count)` of the code blocks among
/// `bs`, in order: each code block occupies the code-buffer lines right after the
/// previous one.
pub open spec fn code_ranges(bs: Seq<BlockSpec>) -> Seq<(int, int, int)>
    decreases bs.len(),
{
    if bs.len() == 0 {
        Seq::empty()
    } else {
        let r = code_ranges(bs.drop_last());
        let b = bs.last();
        if b.kind == BlockKind::Code {
            r.push((next_buf_line(r), b.start_line, block_line_count(b.content)))
        } else {
            r
        }
    }
}

/// Number of leading ranges whose code-buffer start is at most `x`
/// (`partition_point(|r| r.0 <= x)`).
pub open spec fn leading_le(rs: Seq<(int, int, int)>, x: int) -> int
    decreases rs.len(),
{
    if rs.len() == 0 {
        0
    } else if rs[0].0 <= x {
        1 + leading_le(rs.drop_first(), x)
    } else {
        0
    }
}

/// The file line that code-buffer line `x` maps to under the ranges `rs`.
pub open spec fn map_line(rs: Seq<(int, int, int)>, x: int) -> int {
    let idx = leading_le(rs, x);
    if idx == 0 {
        x
    } else {
        let r = rs[idx - 1];
        let off = x - r.0;
        if off < r.2 {
            r.1 + off
        } else if r.2 >= 1 {
            r.1 + r.2 - 1
        } else {
            r.1
        }
    }
}

/// Maps 1-indexed line numbers in the concatenated stripped-code buffer back
/// to 1-indexed line numbers in the original `.lhs` file.
pub struct LineMap {
    // Each entry: (code_buf_start, file_start, line_count).
    ranges: Vec<(usize, usize, usize)>,
}

impl View for LineMap {
    type V = Seq<(int, int, int)>;

    closed spec fn view(&self) -> Seq<(int, int, int)> {
        self.ranges@.map_values(|t: (usize, usize, usize)| (t.0 as int, t.1 as int, t.2 as int))
    }
}

proof fn lemma_code_ranges_take(bs: Seq<BlockSpec>, i: int)
    requires
        0 <= i < bs.len(),
    ensures
        code_ranges(bs.take(i + 1)) == (if bs[i].kind == BlockKind::Code {
            code_ranges(bs.take(i)).push(
                (
                    next_buf_line(code_ranges(bs.take(i))),
                    bs[i].start_line,
                    block_line_count(bs[i].content),
                ),
            )
        } else {
            code_ranges(bs.take(i))
        }),
{
    assert(bs.take(i + 1).drop_last() =~= bs.take(i));
}

proof fn lemma_next_buf_mono(bs: Seq<BlockSpec>, i: int)
    requires
        0 <= i <= bs.len(),
    ensures
        1 <= next_buf_line(code_ranges(bs.take(i))) <= next_buf_line(code_ranges(bs)),
    decreases bs.len() - i,
{
    if i < bs.len() {
        lemma_code_ranges_take(bs, i);
        lemma_next_buf_mono(bs, i + 1);
        lemma_next_buf_pos(bs.take(i));
    } else {
        assert(bs.take(i) =~= bs);
        lemma_next_buf_pos(bs);
    }
}

proof fn lemma_next_buf_pos(bs: Seq<BlockSpec>)
    ensures
        1 <= next_buf_line(code_ranges(bs)),
    decreases bs.len(),
{
    if bs.len() > 0 {
        lemma_next_buf_pos(bs.drop_last());
    }
}

proof fn lemma_leading_le_step(rs: Seq<(int, int, int)>, x: int, i: int)
    requires
        0 <= i < rs.len(),
        rs[i].0 <= x,
    ensures
        leading_le(rs.skip(i), x) == 1 + leading_le(rs.skip(i + 1), x),
{
    assert(rs.skip(i).drop_first() =~= rs.skip(i + 1));
}

/// Number of newlines of a text.
pub fn count_newlines(s: &str) -> (n: usize)
    ensures
        n == nl_count(s@),
{
    let v = chars_of(s);
    let mut n: usize = 0;
    let mut i: usize = 0;
    while i < v.len()
        invariant
            i <= v.len(),
            v@ == s@,
            n == nl_count(v@.take(i as int)),
            n <= i,
        decreases v.len() - i,
    {
        assert(v@.take(i + 1).drop_last() =~= v@.take(i as int));
        if v[i] == '\n' {
            n = n + 1;
        }
        i = i + 1;
    }
    assert(v@.take(i as int) =~= v@);
    n
}

impl LineMap {
    /// Build a `LineMap` from a slice of code blocks (in order of appearance).
    /// Non-code blocks are skipped.
    pub fn from_code_blocks(blocks: &[&LhsBlock]) -> (r: LineMap)
        requires
            next_buf_line(code_ranges(block_ref_views(blocks@))) <= usize::MAX,
        ensures
            r@ == code_ranges(block_ref_views(blocks@)),
    {
        let ghost bs = block_ref_views(blocks@);
        let mut ranges: Vec<(usize, usize, usize)> = Vec::new();
        let mut code_buf_line: usize = 1;
        let mut i: usize = 0;
        while i < blocks.len()
            invariant
                i <= blocks.len(),
                bs == block_ref_views(blocks@),
                next_buf_line(code_ranges(bs)) <= usize::MAX,
                ranges@.map_values(|t: (usize, usize, usize)| (t.0 as int, t.1 as int, t.2 as int))
                    == code_ranges(bs.take(i as int)),
                code_buf_line == next_buf_line(code_ranges(bs.take(i as int))),
            decreases blocks.len() - i,
        {
            let block = blocks[i];
            proof {
                lemma_code_ranges_take(bs, i as int);
                lemma_next_buf_mono(bs, i + 1);
                assert(bs[i as int] == block@);
            }
            if block.kind == BlockKind::Code {
                let n = count_newlines(block.content.as_str());
                assert(code_buf_line + n + 1 <= next_buf_line(code_ranges(bs)));
                let line_count: usize = n + 1;
                let ghost before = ranges@;
                ranges.push((code_buf_line, block.start_line, line_count));
                assert(ranges@.map_values(
                    |t: (usize, usize, usize)| (t.0 as int, t.1 as int, t.2 as int),
                ) =~= before.map_values(
                    |t: (usize, usize, usize)| (t.0 as int, t.1 as int, t.2 as int),
                ).push((code_buf_line as int, block.start_line as int, line_count as int)));
                code_buf_line = code_buf_line + line_count;
            }
            i = i + 1;
        }
        assert(bs.take(i as int) =~= bs);
        LineMap { ranges }
    }

    /// Translate a 1-indexed code-buffer line number to a 1-indexed original
    /// file line number. Falls back to returning `code_line` unchanged if no
    /// mapping is found (e.g. empty `LineMap`); a line past the end of its
    /// range is clamped to the range's last line.
    pub fn file_line(&self, code_line: usize) -> (r: usize)
        requires
            map_line(self@, code_line as int) <= usize::MAX,
        ensures
            r == map_line(self@, code_line as int),
    {
        let ghost rs = self@;
        let mut idx: usize = 0;
        assert(rs.skip(0) =~= rs);
        while idx < self.ranges.len() && self.ranges[idx].0 <= code_line
            invariant
                idx <= self.ranges.len(),
                rs == self@,
                rs.len() == self.ranges.len(),
                leading_le(rs, code_line as int) == idx + leading_le(rs.skip(idx as int), code_line as int),
            decreases self.ranges.len() - idx,
        {
            proof {
                assert(rs[idx as int].0 == self.ranges@[idx as int].0);
                lemma_leading_le_step(rs, code_line as int, idx as int);
            }
            idx = idx + 1;
        }
        proof {
            if idx < self.ranges.len() {
                assert(rs[idx as int].0 == self.ranges@[idx as int].0);
                assert(rs.skip(idx as int)[0] == rs[idx as int]);
            } else {
                assert(rs.skip(idx as int).len() == 0);
            }
        }
        if idx == 0 {
            return code_line;
        }
        let (code_start, file_start, line_count) = self.ranges[idx - 1];
        assert(rs[idx - 1] == (code_start as int, file_start as int, line_count as int));
        proof {
            lemma_leading_le_prefix(rs, code_line as int, idx as int);
        }
        let offset = code_line - code_start;
        if offset < line_count {
            file_start + offset
        } else {
            file_start + if line_count >= 1 { line_count - 1 } else { 0 }
        }
    }
}

/// Non-code blocks contribute no ranges.
pub proof fn lemma_code_ranges_filter(bs: Seq<BlockSpec>)
    ensures
        code_ranges(bs.filter(|b: BlockSpec| is_code_block(b))) == code_ranges(bs),
    decreases bs.len(),
{
    reveal_with_fuel(Seq::filter, 1);
    if bs.len() > 0 {
        lemma_code_ranges_filter(bs.drop_last());
        let f = bs.drop_last().filter(|b: BlockSpec| is_code_block(b));
        if is_code_block(bs.last()) {
            assert(f.push(bs.last()).drop_last() =~= f);
        }
    }
}

/// Ranges of placed blocks stay within the file: each range ends at or before
/// line `n`, has at least one line, and the code buffer has at most `n` lines.
pub proof fn lemma_code_ranges_bounded(bs: Seq<BlockSpec>, n: int)
    requires
        blocks_placed(bs, n),
    ensures
        next_buf_line(code_ranges(bs)) <= 1 + (if bs.len() == 0 {
            0
        } else {
            bs.last().end_line
        }),
        forall|k: int|
            0 <= k < code_ranges(bs).len() ==> (#[trigger] code_ranges(bs)[k]).1 + code_ranges(
                bs,
            )[k].2 - 1 <= n && code_ranges(bs)[k].2 >= 1,
    decreases bs.len(),
{
    if bs.len() > 0 {
        let bs2 = bs.drop_last();
        assert forall|k: int| 0 <= k < bs2.len() implies block_placed(#[trigger] bs2[k], n) by {
            assert(bs2[k] == bs[k]);
        }
        assert forall|k: int| 0 <= k < bs2.len() - 1 implies #[trigger] bs2[k].end_line < bs2[k
            + 1].start_line by {
            assert(bs2[k] == bs[k]);
            assert(bs2[k + 1] == bs[k + 1]);
        }
        lemma_code_ranges_bounded(bs2, n);
        let b = bs.last();
        assert(block_placed(bs[bs.len() - 1], n));
        if bs2.len() > 0 {
            assert(bs[bs.len() - 2].end_line < bs[bs.len() - 1].start_line);
        }
    }
}

/// A code-buffer line maps to a file line no larger than the largest range end.
pub proof fn lemma_map_line_bounded(rs: Seq<(int, int, int)>, x: int, m: int)
    requires
        x <= m,
        forall|k: int| 0 <= k < rs.len() ==> (#[trigger] rs[k]).1 + rs[k].2 - 1 <= m && rs[k].2 >= 1,
    ensures
        map_line(rs, x) <= m,
{
    lemma_leading_le_len(rs, x);
    let idx = leading_le(rs, x);
    if idx > 0 {
        assert(rs[idx - 1].1 + rs[idx - 1].2 - 1 <= m);
    }
}

proof fn lemma_leading_le_len(rs: Seq<(int, int, int)>, x: int)
    ensures
        0 <= leading_le(rs, x) <= rs.len(),
    decreases rs.len(),
{
    if rs.len() > 0 {
        lemma_leading_le_len(rs.drop_first(), x);
    }
}

proof fn lemma_leading_le_prefix(rs: Seq<(int, int, int)>, x: int, k: int)
    requires
        0 < k <= rs.len(),
        leading_le(rs, x) == k,
    ensures
        rs[k - 1].0 <= x,
    decreases k,
{
    if k > 1 {
        lemma_leading_le_prefix(rs.drop_first(), x, k - 1);
    }
}

// ── Laws of the parse and of the line map ────────────────────────────────────

/// Consecutive blocks have different kinds, and each starts on the line
/// right after the previous one ends.
pub open spec fn blocks_alternate(bs: Seq<BlockSpec>) -> bool {
    forall|k: int|
        0 <= k < bs.len() - 1 ==> #[trigger] bs[k].kind != bs[k + 1].kind && bs[k + 1].start_line
            == bs[k].end_line + 1
}

proof fn lemma_bird_run_end_stops(ls: Seq<Seq<char>>, k: BlockKind, i: int)
    requires
        0 <= i <= ls.len(),
    ensures
        bird_run_end(ls, k, i) < ls.len() ==> bird_kind(ls[bird_run_end(ls, k, i)]) != k,
    decreases ls.len() - i,
{
    if i < ls.len() && bird_kind(ls[i]) == k {
        lemma_bird_run_end_stops(ls, k, i + 1);
    }
}

#[verifier::spinoff_prover]
#[verifier::rlimit(40)]
proof fn lemma_bird_blocks_shape(ls: Seq<Seq<char>>, i: int)
    requires
        0 <= i <= ls.len(),
    ensures
        blocks_alternate(bird_blocks_from(ls, i)),
        i < ls.len() ==> bird_blocks_from(ls, i).len() > 0 && bird_blocks_from(ls, i)[0].start_line
            == i + 1 && bird_blocks_from(ls, i)[0].kind == bird_kind(ls[i]) && bird_blocks_from(
            ls,
            i,
        ).last().end_line == ls.len(),
        i == ls.len() ==> bird_blocks_from(ls, i).len() == 0,
    decreases ls.len() - i,
{
    if i < ls.len() {
        let k = bird_kind(ls[i]);
        let e = bird_run_end(ls, k, i + 1);
        lemma_bird_run_end_bounds(ls, k, i + 1);
        lemma_bird_run_end_stops(ls, k, i + 1);
        lemma_bird_blocks_shape(ls, e);
        let bs = bird_blocks_from(ls, i);
        let rest = bird_blocks_from(ls, e);
        assert(bs == seq![bs[0]] + rest);
        assert forall|m: int| 0 <= m < bs.len() - 1 implies #[trigger] bs[m].kind != bs[m
            + 1].kind && bs[m + 1].start_line == bs[m].end_line + 1 by {
            if m > 0 {
                assert(bs[m] == rest[m - 1]);
                assert(bs[m + 1] == rest[m]);
            } else {
                assert(bs[1] == rest[0]);
            }
        }
        if e < ls.len() {
            assert(bs.last() == rest.last());
        }
    }
}

/// A Bird-style file is cut into alternating code and prose blocks that
/// cover its lines one after another, from the first to the last.
pub proof fn lemma_bird_blocks_alternate(source: Seq<char>)
    requires
        spec_detect_style(source) == LhsStyle::Bird,
    ensures
        blocks_alternate(spec_parse_blocks(source)),
        lines_of(source).len() > 0 ==> spec_parse_blocks(source).len() > 0 && spec_parse_blocks(
            source,
        )[0].start_line == 1 && spec_parse_blocks(source).last().end_line == lines_of(
            source,
        ).len(),
{
    lemma_bird_blocks_shape(lines_of(source), 0);
}

/// The ranges follow one another in the code buffer, each at least one line long.
pub open spec fn ranges_contiguous(rs: Seq<(int, int, int)>) -> bool {
    forall|k: int|
        0 <= k < rs.len() ==> (#[trigger] rs[k]).2 >= 1 && (k + 1 < rs.len() ==> rs[k + 1].0 == rs[k].0
            + rs[k].2)
}

proof fn lemma_code_ranges_contiguous(bs: Seq<BlockSpec>)
    ensures
        ranges_contiguous(code_ranges(bs)),
        code_ranges(bs).len() > 0 ==> code_ranges(bs)[0].0 == 1,
    decreases bs.len(),
{
    if bs.len() > 0 {
        lemma_code_ranges_contiguous(bs.drop_last());
        let r = code_ranges(bs.drop_last());
        if bs.last().kind == BlockKind::Code {
            let r2 = code_ranges(bs);
            assert(r2 == r.push((next_buf_line(r), bs.last().start_line, block_line_count(bs.last().content))));
            assert forall|k: int| 0 <= k < r2.len() implies (#[trigger] r2[k]).2 >= 1 && (k + 1
                < r2.len() ==> r2[k + 1].0 == r2[k].0 + r2[k].2) by {
                if k < r.len() {
                    assert(r2[k] == r[k]);
                    if k + 1 < r.len() {
                        assert(r2[k + 1] == r[k + 1]);
                    }
                }
            }
        }
    }
}

proof fn lemma_contiguous_starts(rs: Seq<(int, int, int)>, j: int, k: int)
    requires
        ranges_contiguous(rs),
        0 <= j <= k < rs.len(),
    ensures
        rs[j].0 + (k - j) <= rs[k].0,
    decreases k - j,
{
    if j < k {
        lemma_contiguous_starts(rs, j + 1, k);
        assert(rs[j + 1].0 == rs[j].0 + rs[j].2);
    }
}

proof fn lemma_leading_le_in_range(rs: Seq<(int, int, int)>, k: int, x: int)
    requires
        ranges_contiguous(rs),
        0 <= k < rs.len(),
        rs[k].0 <= x < rs[k].0 + rs[k].2,
    ensures
        leading_le(rs, x) == k + 1,
    decreases k,
{
    let t = rs.drop_first();
    assert forall|m: int| 0 <= m < t.len() implies (#[trigger] t[m]).2 >= 1 && (m + 1 < t.len()
        ==> t[m + 1].0 == t[m].0 + t[m].2) by {
        assert(t[m] == rs[m + 1]);
        assert(rs[m + 1].2 >= 1);
        if m + 1 < t.len() {
            assert(t[m + 1] == rs[m + 2]);
            assert(rs[m + 2].0 == rs[m + 1].0 + rs[m + 1].2);
        }
    }
    if k == 0 {
        if t.len() > 0 {
            assert(t[0] == rs[1]);
            assert(rs[1].0 == rs[0].0 + rs[0].2);
            assert(t[0].0 > x);
        }
        assert(leading_le(t, x) == 0);
    } else {
        lemma_contiguous_starts(rs, 0, k);
        assert(rs[0].0 <= x);
        assert(t[k - 1] == rs[k]);
        lemma_leading_le_in_range(t, k - 1, x);
    }
}

/// The line map sends line `j` (from zero) of the `k`-th code block in the
/// code buffer to line `start_line + j` of the original file.
pub proof fn lemma_map_line_in_block(bs: Seq<BlockSpec>, k: int, j: int)
    requires
        0 <= k < code_ranges(bs).len(),
        0 <= j < code_ranges(bs)[k].2,
    ensures
        map_line(code_ranges(bs), code_ranges(bs)[k].0 + j) == code_ranges(bs)[k].1 + j,
{
    lemma_code_ranges_contiguous(bs);
    lemma_leading_le_in_range(code_ranges(bs), k, code_ranges(bs)[k].0 + j);
}

proof fn lemma_leading_le_all(rs: Seq<(int, int, int)>, x: int)
    requires
        forall|k: int| 0 <= k < rs.len() ==> (#[trigger] rs[k]).0 <= x,
    ensures
        leading_le(rs, x) == rs.len(),
    decreases rs.len(),
{
    if rs.len() > 0 {
        let t = rs.drop_first();
        assert forall|k: int| 0 <= k < t.len() implies (#[trigger] t[k]).0 <= x by {
            assert(t[k] == rs[k + 1]);
        }
        lemma_leading_le_all(t, x);
    }
}

/// The line map at its ends: with no code block every line maps to itself,
/// and so does line 0 (before the code buffer's first line); past the last
/// code line a line maps to the last file line of the last code block.
pub proof fn lemma_map_line_ends(bs: Seq<BlockSpec>, x: int)
    ensures
        code_ranges(bs).len() == 0 ==> map_line(code_ranges(bs), x) == x,
        x < 1 ==> map_line(code_ranges(bs), x) == x,
        code_ranges(bs).len() > 0 && x >= next_buf_line(code_ranges(bs)) ==> map_line(
            code_ranges(bs),
            x,
        ) == code_ranges(bs).last().1 + code_ranges(bs).last().2 - 1,
{
    let rs = code_ranges(bs);
    lemma_code_ranges_contiguous(bs);
    if rs.len() > 0 && x >= next_buf_line(rs) {
        let last = rs.len() - 1;
        assert(rs[last].2 >= 1);
        assert forall|k: int| 0 <= k < rs.len() implies (#[trigger] rs[k]).0 <= x by {
            lemma_contiguous_starts(rs, k, last);
        }
        lemma_leading_le_all(rs, x);
    }
}

/// The `k`-th range of the line map is that of the `k`-th code block: it
/// starts at the block's first file line and counts its content lines.
pub proof fn lemma_code_ranges_of_blocks(bs: Seq<BlockSpec>)
    ensures
        code_ranges(bs).len() == bs.filter(|b: BlockSpec| is_code_block(b)).len(),
        forall|k: int|
            0 <= k < code_ranges(bs).len() ==> (#[trigger] code_ranges(bs)[k]).1 == bs.filter(
                |b: BlockSpec| is_code_block(b),
            )[k].start_line && code_ranges(bs)[k].2 == block_line_count(
                bs.filter(|b: BlockSpec| is_code_block(b))[k].content,
            ),
    decreases bs.len(),
{
    reveal_with_fuel(Seq::filter, 1);
    if bs.len() > 0 {
        lemma_code_ranges_of_blocks(bs.drop_last());
        let f = bs.drop_last().filter(|b: BlockSpec| is_code_block(b));
        let r = code_ranges(bs.drop_last());
        if is_code_block(bs.last()) {
            let f2 = bs.filter(|b: BlockSpec| is_code_block(b));
            assert(f2 == f.push(bs.last()));
            let r2 = code_ranges(bs);
            assert forall|k: int| 0 <= k < r2.len() implies (#[trigger] r2[k]).1 == f2[k].start_line
                && r2[k].2 == block_line_count(f2[k].content) by {
                if k < r.len() {
                    assert(r2[k] == r[k]);
                    assert(f2[k] == f[k]);
                }
            }
        } else {
            assert(bs.filter(|b: BlockSpec| is_code_block(b)) == f);
        }
    }
}

/// The file lines a block was taken from.
pub open spec fn block_lines(ls: Seq<Seq<char>>, b: BlockSpec) -> Seq<Seq<char>> {
    ls.subrange(b.start_line - 1, b.end_line)
}

/// A Bird-style block is a run of lines of its kind: code lines start with
/// `> `, prose lines do not; its text is those lines joined, code lines
/// without their `> `.
pub open spec fn bird_block_from_lines(ls: Seq<Seq<char>>, b: BlockSpec) -> bool {
    &&& 1 <= b.start_line <= b.end_line <= ls.len()
    &&& forall|j: int| b.start_line - 1 <= j < b.end_line ==> bird_kind(#[trigger] ls[j]) == b.kind
    &&& b.content == join_nl(
        drop_each(block_lines(ls, b), if b.kind == BlockKind::Code { 2int } else { 0int }),
    )
}

/// A LaTeX-style block is a run of lines between delimiters: a code block
/// holds no `\end{code}` line, a prose block no `\begin{code}` line; its text
/// is those lines joined.
pub open spec fn latex_block_from_lines(ls: Seq<Seq<char>>, b: BlockSpec) -> bool {
    &&& 1 <= b.start_line <= b.end_line <= ls.len()
    &&& forall|j: int|
        b.start_line - 1 <= j < b.end_line ==> #[trigger] ls[j] != delim(b.kind == BlockKind::Code)
    &&& b.content == join_nl(block_lines(ls, b))
}

proof fn lemma_bird_blocks_lines(ls: Seq<Seq<char>>, i: int)
    requires
        0 <= i <= ls.len(),
    ensures
        forall|k: int|
            0 <= k < bird_blocks_from(ls, i).len() ==> bird_block_from_lines(
                ls,
                #[trigger] bird_blocks_from(ls, i)[k],
            ),
    decreases ls.len() - i,
{
    if i < ls.len() {
        let k = bird_kind(ls[i]);
        let e = bird_run_end(ls, k, i + 1);
        lemma_bird_run_end_bounds(ls, k, i + 1);
        lemma_bird_run_kinds(ls, k, i + 1);
        lemma_bird_blocks_lines(ls, e);
        let bs = bird_blocks_from(ls, i);
        let rest = bird_blocks_from(ls, e);
        assert(bs == seq![bs[0]] + rest);
        assert(bird_block_from_lines(ls, bs[0])) by {
            assert(block_lines(ls, bs[0]) =~= ls.subrange(i, e));
        }
        assert forall|m: int| 0 <= m < bs.len() implies bird_block_from_lines(ls, #[trigger] bs[m]) by {
            if m > 0 {
                assert(bs[m] == rest[m - 1]);
            }
        }
    }
}

proof fn lemma_next_delim_clear(ls: Seq<Seq<char>>, i: int, in_code: bool)
    requires
        0 <= i <= ls.len(),
    ensures
        forall|j: int| i <= j < next_delim(ls, i, in_code) ==> #[trigger] ls[j] != delim(in_code),
    decreases ls.len() - i,
{
    if i < ls.len() && ls[i] != delim(in_code) {
        lemma_next_delim_clear(ls, i + 1, in_code);
    }
}

proof fn lemma_latex_blocks_lines(ls: Seq<Seq<char>>, i: int, in_code: bool)
    requires
        0 <= i <= ls.len(),
    ensures
        forall|k: int|
            0 <= k < latex_blocks_from(ls, i, in_code).len() ==> latex_block_from_lines(
                ls,
                #[trigger] latex_blocks_from(ls, i, in_code)[k],
            ),
    decreases ls.len() - i,
{
    let d = next_delim(ls, i, in_code);
    lemma_next_delim_bounds(ls, i, in_code);
    lemma_next_delim_clear(ls, i, in_code);
    let bs = latex_blocks_from(ls, i, in_code);
    if d > i {
        let b = bs[0];
        assert(latex_block_from_lines(ls, b)) by {
            assert(block_lines(ls, b) =~= ls.subrange(i, d));
            assert((b.kind == BlockKind::Code) == in_code);
        }
    }
    if d < ls.len() {
        lemma_latex_blocks_lines(ls, d + 1, !in_code);
        let rest = latex_blocks_from(ls, d + 1, !in_code);
        assert forall|m: int| 0 <= m < bs.len() implies latex_block_from_lines(ls, #[trigger] bs[m]) by {
            if d > i && m > 0 {
                assert(bs[m] == rest[m - 1]);
            } else if d == i {
                assert(bs[m] == rest[m]);
            }
        }
    }
}

/// Every block is read straight off the file's lines at its line numbers:
/// in Bird style a run of lines of one kind, code lines without their `> `;
/// in LaTeX style a run of lines between delimiters, no delimiter included.
pub proof fn lemma_blocks_are_file_lines(source: Seq<char>)
    ensures
        spec_detect_style(source) == LhsStyle::Bird ==> forall|k: int|
            0 <= k < spec_parse_blocks(source).len() ==> bird_block_from_lines(
                lines_of(source),
                #[trigger] spec_parse_blocks(source)[k],
            ),
        spec_detect_style(source) == LhsStyle::LaTeX ==> forall|k: int|
            0 <= k < spec_parse_blocks(source).len() ==> latex_block_from_lines(
                lines_of(source),
                #[trigger] spec_parse_blocks(source)[k],
            ),
{
    lemma_bird_blocks_lines(lines_of(source), 0);
    lemma_latex_blocks_lines(lines_of(source), 0, false);
}


/// Line `j` (from zero) of the file lies in one of the blocks `bs`, one of
/// kind `kind`.
pub open spec fn line_in_block_of_kind(bs: Seq<BlockSpec>, j: int, kind: BlockKind) -> bool {
    exists|k: int|
        0 <= k < bs.len() && (#[trigger] bs[k]).start_line <= j + 1 <= bs[k].end_line && bs[k].kind == kind
}

proof fn lemma_bird_cover(ls: Seq<Seq<char>>, i: int)
    requires
        0 <= i <= ls.len(),
    ensures
        forall|j: int|
            i <= j < ls.len() ==> #[trigger] line_in_block_of_kind(bird_blocks_from(ls, i), j, bird_kind(ls[j])),
    decreases ls.len() - i,
{
    if i < ls.len() {
        let kd = bird_kind(ls[i]);
        let e = bird_run_end(ls, kd, i + 1);
        lemma_bird_run_end_bounds(ls, kd, i + 1);
        lemma_bird_run_kinds(ls, kd, i + 1);
        lemma_bird_cover(ls, e);
        let bs = bird_blocks_from(ls, i);
        let rest = bird_blocks_from(ls, e);
        assert(bs == seq![bs[0]] + rest);
        assert forall|j: int| i <= j < ls.len() implies #[trigger] line_in_block_of_kind(bs, j, bird_kind(ls[j])) by {
            if j < e {
                if j > i {
                    assert(bird_kind(ls[j]) == kd);
                }
                assert(bs[0].start_line <= j + 1 <= bs[0].end_line && bs[0].kind == bird_kind(ls[j]));
            } else {
                assert(line_in_block_of_kind(rest, j, bird_kind(ls[j])));
                let k = choose|k: int|
                    0 <= k < rest.len() && (#[trigger] rest[k]).start_line <= j + 1 <= rest[k].end_line
                        && rest[k].kind == bird_kind(ls[j]);
                assert(bs[k + 1] == rest[k]);
            }
        }
    }
}

/// In a Bird-style file every line lies in a block whose kind is the line's
/// own: code exactly when the line starts with `> `.
pub proof fn lemma_bird_lines_covered(source: Seq<char>)
    requires
        spec_detect_style(source) == LhsStyle::Bird,
    ensures
        forall|j: int|
            0 <= j < lines_of(source).len() ==> #[trigger] line_in_block_of_kind(
                spec_parse_blocks(source),
                j,
                bird_kind(lines_of(source)[j]),
            ),
{
    lemma_bird_cover(lines_of(source), 0);
}

/// A Bird-style file is tiled by its blocks: there are none exactly when it
/// has no line; otherwise the first starts on line 1, the last ends on the
/// last line, each starts right after the previous one ends and differs from
/// it in kind, and each is a run of lines of its kind (code lines start with
/// `> `), its text those lines joined, code lines without their `> `.
pub proof fn lemma_bird_tiling(source: Seq<char>)
    requires
        spec_detect_style(source) == LhsStyle::Bird,
    ensures
        (spec_parse_blocks(source).len() == 0) == (lines_of(source).len() == 0),
        blocks_alternate(spec_parse_blocks(source)),
        lines_of(source).len() > 0 ==> spec_parse_blocks(source)[0].start_line == 1
            && spec_parse_blocks(source).last().end_line == lines_of(source).len(),
        forall|k: int|
            0 <= k < spec_parse_blocks(source).len() ==> bird_block_from_lines(
                lines_of(source),
                #[trigger] spec_parse_blocks(source)[k],
            ),
{
    lemma_bird_blocks_alternate(source);
    lemma_blocks_are_file_lines(source);
}


// ── The LaTeX scan ────────────────────────────────────────────────────────────

/// Whether the scan of a LaTeX-style file, starting outside code, is inside
/// `\begin{code}` … `\end{code}` when it reaches line `j` (from zero): each
/// line that toggles flips it.
pub open spec fn latex_inside(ls: Seq<Seq<char>>, j: int) -> bool
    decreases j,
{
    if j <= 0 {
        false
    } else {
        let p = latex_inside(ls, j - 1);
        if ls[j - 1] == delim(p) {
            !p
        } else {
            p
        }
    }
}

/// Line `j` toggles the scan: it is `\begin{code}` while outside or
/// `\end{code}` while inside.
pub open spec fn latex_toggles(ls: Seq<Seq<char>>, j: int) -> bool {
    ls[j] == delim(latex_inside(ls, j))
}

/// The kind of the lines the scan reads inside or outside code.
pub open spec fn kind_of(in_code: bool) -> BlockKind {
    if in_code {
        BlockKind::Code
    } else {
        BlockKind::Prose
    }
}

/// Line `j` (from zero) of the file lies in one of the blocks `bs`.
pub open spec fn line_in_block(bs: Seq<BlockSpec>, j: int) -> bool {
    exists|k: int| 0 <= k < bs.len() && (#[trigger] bs[k]).start_line <= j + 1 <= bs[k].end_line
}

/// How line `j` (from zero) stands to the blocks `bs` of a LaTeX-style
/// file: a line that toggles the scan lies in no block; any other line lies
/// in a block of the kind the scan is in when it reaches the line.
pub open spec fn latex_line_placed(ls: Seq<Seq<char>>, bs: Seq<BlockSpec>, j: int) -> bool {
    &&& latex_toggles(ls, j) ==> !line_in_block(bs, j)
    &&& !latex_toggles(ls, j) ==> line_in_block_of_kind(bs, j, kind_of(latex_inside(ls, j)))
}

proof fn lemma_latex_inside_run(ls: Seq<Seq<char>>, i: int, j: int, c: bool)
    requires
        0 <= i <= j <= next_delim(ls, i, c),
        next_delim(ls, i, c) <= ls.len(),
        latex_inside(ls, i) == c,
    ensures
        latex_inside(ls, j) == c,
    decreases j - i,
{
    if j > i {
        lemma_latex_inside_run(ls, i, j - 1, c);
        lemma_next_delim_clear(ls, i, c);
    }
}

proof fn lemma_next_delim_stops(ls: Seq<Seq<char>>, i: int, c: bool)
    requires
        0 <= i <= ls.len(),
    ensures
        next_delim(ls, i, c) < ls.len() ==> ls[next_delim(ls, i, c)] == delim(c),
    decreases ls.len() - i,
{
    if i < ls.len() && ls[i] != delim(c) {
        lemma_next_delim_stops(ls, i + 1, c);
    }
}

proof fn lemma_latex_scan_from(ls: Seq<Seq<char>>, i: int, c: bool)
    requires
        0 <= i <= ls.len(),
        latex_inside(ls, i) == c,
    ensures
        forall|j: int| i <= j < ls.len() ==> #[trigger] latex_line_placed(ls, latex_blocks_from(ls, i, c), j),
        forall|k: int|
            0 <= k < latex_blocks_from(ls, i, c).len() ==> (#[trigger] latex_blocks_from(ls, i, c)[k]).start_line
                >= i + 1 && (latex_blocks_from(ls, i, c)[k].start_line == i + 1 || latex_toggles(
                ls,
                latex_blocks_from(ls, i, c)[k].start_line - 2,
            )) && (latex_blocks_from(ls, i, c)[k].end_line == ls.len() || latex_toggles(
                ls,
                latex_blocks_from(ls, i, c)[k].end_line,
            )),
    decreases ls.len() - i,
{
    let n = ls.len() as int;
    let d = next_delim(ls, i, c);
    lemma_next_delim_bounds(ls, i, c);
    lemma_next_delim_clear(ls, i, c);
    lemma_next_delim_stops(ls, i, c);
    lemma_latex_inside_run(ls, i, d, c);
    let bs = latex_blocks_from(ls, i, c);
    let seg: Seq<BlockSpec> = if d > i {
        seq![
            BlockSpec {
                kind: if c { BlockKind::Code } else { BlockKind::Prose },
                content: join_nl(ls.subrange(i, d)),
                start_line: i + 1,
                end_line: d,
            },
        ]
    } else {
        Seq::empty()
    };
    if d < n {
        assert(latex_toggles(ls, d));
        assert(latex_inside(ls, d + 1) == !c);
        lemma_latex_scan_from(ls, d + 1, !c);
        let rest = latex_blocks_from(ls, d + 1, !c);
        assert(bs == seg + rest);
        assert forall|k: int| 0 <= k < bs.len() implies (#[trigger] bs[k]).start_line >= i + 1 && (
        bs[k].start_line == i + 1 || latex_toggles(ls, bs[k].start_line - 2)) && (bs[k].end_line == n
            || latex_toggles(ls, bs[k].end_line)) by {
            if k >= seg.len() {
                assert(bs[k] == rest[k - seg.len()]);
            } else {
                assert(bs[k] == seg[k]);
            }
        }
        assert forall|j: int| i <= j < n implies #[trigger] latex_line_placed(ls, bs, j) by {
            if j < d {
                lemma_latex_inside_run(ls, i, j, c);
                assert(!latex_toggles(ls, j));
                assert(bs[0] == seg[0]);
                assert(bs[0].start_line <= j + 1 <= bs[0].end_line && bs[0].kind == kind_of(latex_inside(ls, j)));
            } else if j == d {
                if line_in_block(bs, j) {
                    let k = choose|k: int| 0 <= k < bs.len() && (#[trigger] bs[k]).start_line <= j + 1 <= bs[k].end_line;
                    if k >= seg.len() {
                        assert(bs[k] == rest[k - seg.len()]);
                    } else {
                        assert(bs[k] == seg[k]);
                    }
                }
            } else {
                assert(latex_line_placed(ls, rest, j));
                if latex_toggles(ls, j) {
                    assert(!line_in_block(rest, j));
                    if line_in_block(bs, j) {
                        let k = choose|k: int| 0 <= k < bs.len() && (#[trigger] bs[k]).start_line <= j + 1 <= bs[k].end_line;
                        if k >= seg.len() {
                            assert(bs[k] == rest[k - seg.len()]);
                        } else {
                            assert(bs[k] == seg[k]);
                        }
                    }
                } else {
                    assert(line_in_block_of_kind(rest, j, kind_of(latex_inside(ls, j))));
                    let k = choose|k: int|
                        0 <= k < rest.len() && (#[trigger] rest[k]).start_line <= j + 1 <= rest[k].end_line
                            && rest[k].kind == kind_of(latex_inside(ls, j));
                    assert(bs[k + seg.len()] == rest[k]);
                }
            }
        }
    } else {
        assert(bs == seg);
        assert forall|j: int| i <= j < n implies #[trigger] latex_line_placed(ls, bs, j) by {
            lemma_latex_inside_run(ls, i, j, c);
            assert(!latex_toggles(ls, j));
            assert(bs[0].start_line <= j + 1 <= bs[0].end_line && bs[0].kind == kind_of(latex_inside(ls, j)));
        }
    }
}

/// A LaTeX-style file read as the scan reads it, starting outside code: a
/// line toggles when it is `\begin{code}` outside or `\end{code}` inside;
/// no toggling line lies in a block; every other line lies in a block of
/// the kind the scan is in (code inside); and each block is a maximal run of
/// such lines, opening on the first line or after a toggling line, and
/// closing on the last line or before one.
pub proof fn lemma_latex_scan(source: Seq<char>)
    requires
        spec_detect_style(source) == LhsStyle::LaTeX,
    ensures
        forall|j: int|
            0 <= j < lines_of(source).len() ==> #[trigger] latex_line_placed(
                lines_of(source),
                spec_parse_blocks(source),
                j,
            ),
        forall|k: int|
            0 <= k < spec_parse_blocks(source).len() ==> ((#[trigger] spec_parse_blocks(source)[k]).start_line
                == 1 || latex_toggles(lines_of(source), spec_parse_blocks(source)[k].start_line - 2)) && (
            spec_parse_blocks(source)[k].end_line == lines_of(source).len() || latex_toggles(
                lines_of(source),
                spec_parse_blocks(source)[k].end_line,
            )),
{
    lemma_latex_scan_from(lines_of(source), 0, false);
}


// ── An unclosed code block ───────────────────────────────────────────────────

/// A LaTeX-style source whose last `\begin{code}` is never closed and has
/// lines after it: its last block is code and runs to the last line.
pub open spec fn spec_unclosed_code_block(source: Seq<char>) -> bool {
    let bs = spec_parse_blocks(source);
    &&& spec_detect_style(source) == LhsStyle::LaTeX
    &&& bs.len() > 0
    &&& bs.last().kind == BlockKind::Code
    &&& bs.last().end_line == lines_of(source).len()
}

/// Whether the source ends inside a `\begin{code}` that is never closed,
/// its remaining lines taken as code (see [`spec_unclosed_code_block`]).
pub fn unclosed_code_block(source: &str) -> (r: bool)
    ensures
        r == spec_unclosed_code_block(source@),
{
    let parsed = parse_lhs(source);
    let chars = chars_of(source);
    let n = split_lines(&chars).len();
    if !matches!(parsed.style, LhsStyle::LaTeX) || parsed.blocks.len() == 0 {
        return false;
    }
    let last = &parsed.blocks[parsed.blocks.len() - 1];
    proof {
        assert(parsed.blocks_view().last() == last@);
    }
    matches!(last.kind, BlockKind::Code) && last.end_line == n
}

/// An unclosed code block is what the LaTeX scan leaves open: the file has
/// lines, the scan is still inside code after the last one, and that line
/// does not toggle it.
pub proof fn lemma_unclosed_is_open_scan(source: Seq<char>)
    requires
        spec_detect_style(source) == LhsStyle::LaTeX,
    ensures
        spec_unclosed_code_block(source) <==> {
            let ls = lines_of(source);
            &&& ls.len() > 0
            &&& latex_inside(ls, ls.len() as int)
            &&& !latex_toggles(ls, ls.len() - 1)
        },
{
    let ls = lines_of(source);
    let n = ls.len() as int;
    let bs = spec_parse_blocks(source);
    lemma_latex_scan(source);
    lemma_parse_blocks_placed(source);
    if spec_unclosed_code_block(source) {
        let k = bs.len() - 1;
        assert(block_placed(bs[k], n));
        assert(bs[k] == bs.last());
        assert(latex_line_placed(ls, bs, n - 1));
        assert(line_in_block(bs, n - 1));
        assert(!latex_toggles(ls, n - 1));
        assert(line_in_block_of_kind(bs, n - 1, kind_of(latex_inside(ls, n - 1))));
        let m = choose|m: int|
            0 <= m < bs.len() && (#[trigger] bs[m]).start_line <= n <= bs[m].end_line && bs[m].kind
                == kind_of(latex_inside(ls, n - 1));
        if m < k {
            assert(bs[m].end_line < bs[m + 1].start_line);
            assert(block_placed(bs[m + 1], n));
            assert(false);
        }
        assert(latex_inside(ls, n - 1));
        assert(latex_inside(ls, n) == latex_inside(ls, n - 1));
    }
    if n > 0 && latex_inside(ls, n) && !latex_toggles(ls, n - 1) {
        assert(latex_inside(ls, n) == latex_inside(ls, n - 1));
        assert(latex_line_placed(ls, bs, n - 1));
        let m = choose|m: int|
            0 <= m < bs.len() && (#[trigger] bs[m]).start_line <= n <= bs[m].end_line && bs[m].kind
                == kind_of(latex_inside(ls, n - 1));
        assert(block_placed(bs[m], n));
        if m < bs.len() - 1 {
            assert(bs[m].end_line < bs[m + 1].start_line);
            assert(block_placed(bs[m + 1], n));
            assert(false);
        }
        assert(bs[m] == bs.last());
    }
}

} // verus!
