//! Documentation ingestion: which files are documentation, and how a
//! document is cut into the chunks that get embedded.
use vstd::prelude::*;
use vstd::string::StrSliceExecFns;

use crate::files::{ext_lower, lowercase_extension};
use crate::lhs::{block_views, parse_lhs, spec_parse_blocks, BlockKind, BlockSpec, LhsBlock};
use crate::num::{decimal, decimal_string};
use crate::text::{
    copy_range, extend_chars, blank, chars_of, contains_text, ends_with_text, has_infix, has_suffix, is_text, lowercase,
    to_lowercase, fit_prefix, fit_prefix_len, has_prefix, is_blank, is_whitespace, is_ws,
    lemma_fit_prefix, lines_of, split_lines, starts_with, string_of,
    string_of_range, string_views, trim, trim_bounds, trim_end, trim_end_len, utf8_len,
    utf8_len_upto, views,
};

verus! {

broadcast use vstd::seq_lib::group_seq_properties;

/// Paragraphs and sections are cut to at most this many UTF-8 bytes.
pub const MAX_CHUNK_CHARS: usize = 4000;

/// Chunks whose trimmed text is shorter than this many bytes are not indexed.
pub const MIN_CHUNK_CHARS: usize = 50;

/// The longest prefix of `s` whose UTF-8 encoding fits in `max` bytes.
pub open spec fn clip(s: Seq<char>, max: int) -> Seq<char> {
    s.take(fit_prefix_len(s, max))
}

/// Truncates `s` to at most `max_bytes` bytes, backing off to a character
/// boundary: the longest prefix of `s` that fits.
pub fn truncate_to_char_boundary(s: &str, max_bytes: usize) -> (r: &str)
    ensures
        r@ == clip(s@, max_bytes as int),
        has_prefix(s@, r@),
        utf8_len(r@) <= max_bytes,
        r@.len() < s@.len() ==> utf8_len(s@.take(r@.len() as int + 1)) > max_bytes,
        r.len() <= max_bytes,
        utf8_len(s@) <= max_bytes ==> r@ == s@,
{
    let v = chars_of(s);
    let k = fit_prefix(&v, max_bytes);
    proof {
        lemma_fit_prefix(s@, max_bytes as int);
        crate::text::lemma_utf8_len_is_encoding_len(s@);
        crate::text::lemma_utf8_len_is_encoding_len(s@.take(k as int));
        if utf8_len(s@) <= max_bytes {
            crate::text::lemma_fit_prefix_unique(s@, max_bytes as int, s@.len() as int);
            assert(s@.take(s@.len() as int) =~= s@);
        }
    }
    let r = s.substring_char(0, k);
    proof {
        crate::text::lemma_utf8_len_is_encoding_len(r@);
    }
    r
}

// ── Paragraphs ────────────────────────────────────────────────────────────────

/// A blank-line separator `"\n\n"` starts at `j`.
pub open spec fn sep_at(s: Seq<char>, j: int) -> bool {
    0 <= j && j + 1 < s.len() && s[j] == '\n' && s[j + 1] == '\n'
}

/// First position `j >= i` where a blank-line separator `"\n\n"` starts, or
/// `s.len()` when there is none.
pub open spec fn next_para_sep(s: Seq<char>, i: int) -> int
    decreases s.len() - i,
{
    if i + 1 >= s.len() {
        s.len() as int
    } else if s[i] == '\n' && s[i + 1] == '\n' {
        i
    } else {
        next_para_sep(s, i + 1)
    }
}

/// Bounds and meaning of [`next_para_sep`].
pub proof fn lemma_next_para_sep(s: Seq<char>, i: int)
    requires
        0 <= i <= s.len(),
    ensures
        i <= next_para_sep(s, i) <= s.len(),
        next_para_sep(s, i) < s.len() ==> next_para_sep(s, i) + 1 < s.len() && s[next_para_sep(
            s,
            i,
        )] == '\n' && s[next_para_sep(s, i) + 1] == '\n',
        forall|j: int| i <= j < next_para_sep(s, i) ==> !#[trigger] sep_at(s, j),
    decreases s.len() - i,
{
    if i + 1 < s.len() && !(s[i] == '\n' && s[i + 1] == '\n') {
        lemma_next_para_sep(s, i + 1);
    }
}

proof fn lemma_next_para_sep_skip(s: Seq<char>, a: int, b: int)
    requires
        0 <= a <= b <= s.len(),
        forall|j: int| a <= j < b ==> !#[trigger] sep_at(s, j),
    ensures
        next_para_sep(s, a) == next_para_sep(s, b),
    decreases b - a,
{
    if a < b {
        assert(!sep_at(s, a));
        lemma_next_para_sep_skip(s, a + 1, b);
    }
}

/// The pieces of `s` from position `i` on, cut at each `"\n\n"` from left to
/// right (`str::split("\n\n")`).
pub open spec fn para_pieces_from(s: Seq<char>, i: int) -> Seq<Seq<char>>
    decreases s.len() - i,
{
    if i < 0 || i > s.len() {
        Seq::empty()
    } else {
        let j = next_para_sep(s, i);
        if j < s.len() {
            proof {
                lemma_next_para_sep(s, i);
            }
            seq![s.subrange(i, j)] + para_pieces_from(s, j + 2)
        } else {
            seq![s.subrange(i, s.len() as int)]
        }
    }
}

/// `str::split("\n\n")`.
pub open spec fn para_pieces(s: Seq<char>) -> Seq<Seq<char>> {
    para_pieces_from(s, 0)
}

/// Splits `v` at each blank-line separator `"\n\n"`.
fn split_paragraphs(v: &Vec<char>) -> (r: Vec<Vec<char>>)
    ensures
        views(r@) == para_pieces(v@),
{
    let mut out: Vec<Vec<char>> = Vec::new();
    let mut start: usize = 0;
    let mut i: usize = 0;
    while v.len() - i > 1
        invariant
            start <= i <= v.len(),
            views(out@) + para_pieces_from(v@, start as int) == para_pieces(v@),
            forall|j: int| start <= j < i ==> !#[trigger] sep_at(v@, j),
        decreases v.len() - i,
    {
        if v[i] == '\n' && v[i + 1] == '\n' {
            proof {
                lemma_next_para_sep_skip(v@, start as int, i as int);
            }
            let piece = copy_range(v, start, i);
            proof {
                crate::text::lemma_views_push(out@, piece);
                assert(views(out@.push(piece)) + para_pieces_from(v@, i + 2) =~= views(out@)
                    + para_pieces_from(v@, start as int));
            }
            out.push(piece);
            start = i + 2;
            i = i + 2;
        } else {
            i = i + 1;
        }
    }
    proof {
        assert forall|j: int| start <= j < v.len() implies !#[trigger] sep_at(v@, j) by {}
        lemma_next_para_sep_skip(v@, start as int, v.len() as int);
    }
    let piece = copy_range(v, start, v.len());
    proof {
        crate::text::lemma_views_push(out@, piece);
        assert(views(out@.push(piece)) =~= views(out@) + para_pieces_from(v@, start as int));
    }
    out.push(piece);
    out
}

/// The paragraphs made of `pieces`: each trimmed, the empty ones dropped, and
/// each cut to [`MAX_CHUNK_CHARS`] bytes.
pub open spec fn paragraph_texts(pieces: Seq<Seq<char>>) -> Seq<Seq<char>>
    decreases pieces.len(),
{
    if pieces.len() == 0 {
        Seq::empty()
    } else {
        let rest = paragraph_texts(pieces.drop_last());
        let t = trim(pieces.last());
        if t.len() == 0 {
            rest
        } else {
            rest.push(clip(t, MAX_CHUNK_CHARS as int))
        }
    }
}

/// The paragraphs of `text`: its pieces between blank lines, trimmed, the
/// empty ones dropped, each cut to [`MAX_CHUNK_CHARS`] bytes.
pub open spec fn paragraphs(text: Seq<char>) -> Seq<Seq<char>> {
    paragraph_texts(para_pieces(text))
}

/// The paragraphs of `text` (see [`paragraphs`]).
pub fn paragraph_strings(text: &str) -> (r: Vec<String>)
    ensures
        string_views(r@) == paragraphs(text@),
{
    let v = chars_of(text);
    let pieces = split_paragraphs(&v);
    let mut out: Vec<String> = Vec::new();
    let mut k: usize = 0;
    while k < pieces.len()
        invariant
            k <= pieces.len(),
            views(pieces@) == para_pieces(text@),
            string_views(out@) == paragraph_texts(views(pieces@).take(k as int)),
        decreases pieces.len() - k,
    {
        let piece = &pieces[k];
        let (a, b) = trim_bounds(piece);
        proof {
            assert(views(pieces@).take(k + 1).drop_last() =~= views(pieces@).take(k as int));
            assert(views(pieces@).take(k + 1).last() == piece@);
        }
        if a < b {
            let t = copy_range(piece, a, b);
            let n = fit_prefix(&t, MAX_CHUNK_CHARS);
            let para = string_of_range(&t, 0, n);
            proof {
                crate::text::lemma_string_views_push(out@, para);
                assert(para@ =~= clip(trim(piece@), MAX_CHUNK_CHARS as int));
            }
            out.push(para);
        }
        k = k + 1;
    }
    assert(views(pieces@).take(k as int) =~= views(pieces@));
    out
}

/// A chunk of a document: its position among the file's chunks and its text.
#[derive(Debug, Clone)]
pub struct MarkdownChunk {
    pub index: i32,
    pub content: String,
}

/// `chunks` numbers `contents` from zero, in order.
pub open spec fn numbered(chunks: Seq<MarkdownChunk>, contents: Seq<Seq<char>>) -> bool {
    &&& chunks.len() == contents.len()
    &&& forall|k: int|
        0 <= k < chunks.len() ==> (#[trigger] chunks[k]).index == k && chunks[k].content@
            == contents[k]
}

/// Numbers `contents` from zero.
fn number_chunks(contents: &Vec<String>) -> (r: Vec<MarkdownChunk>)
    requires
        contents.len() <= i32::MAX,
    ensures
        numbered(r@, string_views(contents@)),
{
    let mut out: Vec<MarkdownChunk> = Vec::new();
    let mut idx: i32 = 0;
    let mut k: usize = 0;
    while k < contents.len()
        invariant
            k <= contents.len() <= i32::MAX,
            idx == k,
            out.len() == k,
            forall|j: int|
                0 <= j < k ==> (#[trigger] out@[j]).index == j && out@[j].content@
                    == contents@[j]@,
        decreases contents.len() - k,
    {
        out.push(MarkdownChunk { index: idx, content: contents[k].clone() });
        idx = idx + 1;
        k = k + 1;
    }
    out
}

/// Splits plain text into paragraph chunks at blank lines; each is trimmed
/// and cut to [`MAX_CHUNK_CHARS`] bytes, and empty ones are dropped.
pub fn chunk_by_paragraph(text: &str) -> (r: Vec<MarkdownChunk>)
    requires
        paragraphs(text@).len() <= i32::MAX,
    ensures
        numbered(r@, paragraphs(text@)),
{
    let contents = paragraph_strings(text);
    number_chunks(&contents)
}

// ── Titles and sections ───────────────────────────────────────────────────────

/// The title found among `ls`: the first line that, trimmed, starts with
/// `"# "`, with that marker removed and the rest trimmed; `fallback` if none.
pub open spec fn title_from(ls: Seq<Seq<char>>, fallback: Seq<char>) -> Seq<char>
    decreases ls.len(),
{
    if ls.len() == 0 {
        fallback
    } else {
        let t = trim(ls[0]);
        if has_prefix(t, seq!['#', ' ']) {
            trim(t.skip(2))
        } else {
            title_from(ls.drop_first(), fallback)
        }
    }
}

/// The title of a markdown text: its first `# ` heading, else `fallback`.
pub open spec fn spec_extract_title(text: Seq<char>, fallback: Seq<char>) -> Seq<char> {
    title_from(lines_of(text), fallback)
}

/// The text of the first level-one heading of `text`, or `fallback`.
#[verifier::rlimit(30)]
pub fn extract_title(text: &str, fallback: &str) -> (r: String)
    ensures
        r@ == spec_extract_title(text@, fallback@),
{
    let v = chars_of(text);
    let lines = split_lines(&v);
    let mut i: usize = 0;
    while i < lines.len()
        invariant
            i <= lines.len(),
            views(lines@) == lines_of(text@),
            spec_extract_title(text@, fallback@) == title_from(
                views(lines@).skip(i as int),
                fallback@,
            ),
        decreases lines.len() - i,
    {
        let line = &lines[i];
        let (a, b) = trim_bounds(line);
        proof {
            assert(views(lines@).skip(i as int)[0] == line@);
            assert(views(lines@).skip(i as int).drop_first() =~= views(lines@).skip(i + 1));
        }
        if b - a >= 2 && line[a] == '#' && line[a + 1] == ' ' {
            let rest = copy_range(line, a + 2, b);
            let (c, d) = trim_bounds(&rest);
            proof {
                let t = trim(line@);
                assert(t.take(2) =~= seq!['#', ' ']);
                assert(rest@ =~= t.skip(2));
            }
            return string_of_range(&rest, c, d);
        }
        proof {
            let t = trim(line@);
            if has_prefix(t, seq!['#', ' ']) {
                assert(t[0] == t.take(2)[0]);
                assert(t[1] == t.take(2)[1]);
            }
        }
        i = i + 1;
    }
    proof {
        assert(views(lines@).skip(i as int).len() == 0);
    }
    let f = chars_of(fallback);
    string_of(&f)
}

/// Folds the lines `ls` into finished sections and the section under
/// construction: a line starting with `prefix` closes the current section
/// unless it is blank; every line is kept with a `'\n'` after it.
pub open spec fn heading_fold(ls: Seq<Seq<char>>, prefix: Seq<char>) -> (Seq<Seq<char>>, Seq<
    char,
>)
    decreases ls.len(),
{
    if ls.len() == 0 {
        (Seq::empty(), Seq::empty())
    } else {
        let prev = heading_fold(ls.drop_last(), prefix);
        let l = ls.last();
        if has_prefix(l, prefix) && !is_blank(prev.1) {
            (prev.0.push(prev.1), l.push('\n'))
        } else {
            (prev.0, prev.1 + l.push('\n'))
        }
    }
}

/// The sections of `text` split before each line that starts with `prefix`,
/// each heading line kept with its section; a blank section is never split off.
/// A text with no non-blank section is returned whole.
pub open spec fn heading_sections(text: Seq<char>, prefix: Seq<char>) -> Seq<Seq<char>> {
    let f = heading_fold(lines_of(text), prefix);
    let all = if is_blank(f.1) {
        f.0
    } else {
        f.0.push(f.1)
    };
    if all.len() == 0 {
        seq![text]
    } else {
        all
    }
}

/// Splits `text` on lines that start with `prefix`, keeping the prefix line
/// with the section it opens.
pub fn split_on_heading(text: &str, prefix: &str) -> (r: Vec<String>)
    ensures
        string_views(r@) == heading_sections(text@, prefix@),
{
    let v = chars_of(text);
    let pv = chars_of(prefix);
    let lines = split_lines(&v);
    let mut out: Vec<String> = Vec::new();
    let mut cur: Vec<char> = Vec::new();
    let mut i: usize = 0;
    while i < lines.len()
        invariant
            i <= lines.len(),
            views(lines@) == lines_of(text@),
            pv@ == prefix@,
            string_views(out@) == heading_fold(views(lines@).take(i as int), prefix@).0,
            cur@ == heading_fold(views(lines@).take(i as int), prefix@).1,
        decreases lines.len() - i,
    {
        let line = &lines[i];
        proof {
            assert(views(lines@).take(i + 1).drop_last() =~= views(lines@).take(i as int));
            assert(views(lines@).take(i + 1).last() == line@);
        }
        if starts_with(line, &pv) && !blank(&cur) {
            let sec = string_of(&cur);
            proof {
                crate::text::lemma_string_views_push(out@, sec);
            }
            out.push(sec);
            cur = Vec::new();
        }
        let ghost before = cur@;
        let mut k: usize = 0;
        while k < line.len()
            invariant
                k <= line.len(),
                cur@ == before + line@.take(k as int),
            decreases line.len() - k,
        {
            cur.push(line[k]);
            k = k + 1;
            assert(cur@ =~= before + line@.take(k as int));
        }
        cur.push('\n');
        assert(cur@ =~= before + line@.push('\n'));
        i = i + 1;
    }
    assert(views(lines@).take(i as int) =~= views(lines@));
    if !blank(&cur) {
        let sec = string_of(&cur);
        proof {
            crate::text::lemma_string_views_push(out@, sec);
        }
        out.push(sec);
    }
    if out.len() == 0 {
        out.push(string_of(&v));
        assert(string_views(out@) =~= seq![text@]);
    }
    out
}

// ── Markdown chunks ───────────────────────────────────────────────────────────

/// The chunks made of the subsections of an oversized section: blank ones
/// dropped, each cut to [`MAX_CHUNK_CHARS`] bytes and trimmed at the end.
pub open spec fn subsection_texts(subs: Seq<Seq<char>>) -> Seq<Seq<char>>
    decreases subs.len(),
{
    if subs.len() == 0 {
        Seq::empty()
    } else {
        let rest = subsection_texts(subs.drop_last());
        let s = subs.last();
        if is_blank(s) {
            rest
        } else {
            rest.push(trim_end(clip(s, MAX_CHUNK_CHARS as int)))
        }
    }
}

/// The chunks made of the `## ` sections: blank ones dropped, one that fits
/// in [`MAX_CHUNK_CHARS`] bytes kept whole (trimmed at the end), a larger one
/// split again on `### ` headings.
pub open spec fn section_texts(secs: Seq<Seq<char>>) -> Seq<Seq<char>>
    decreases secs.len(),
{
    if secs.len() == 0 {
        Seq::empty()
    } else {
        let rest = section_texts(secs.drop_last());
        let s = secs.last();
        if is_blank(s) {
            rest
        } else if utf8_len(s) <= MAX_CHUNK_CHARS {
            rest.push(trim_end(s))
        } else {
            rest + subsection_texts(heading_sections(s, "### "@))
        }
    }
}

/// The chunk texts of a markdown document: the whole document when it fits
/// in [`MAX_CHUNK_CHARS`] bytes; else its `## ` sections (oversized ones split
/// on `### `); and if that leaves nothing, the document cut to the limit.
pub open spec fn markdown_chunk_texts(source: Seq<char>) -> Seq<Seq<char>> {
    if utf8_len(source) <= MAX_CHUNK_CHARS {
        seq![source]
    } else {
        let cs = section_texts(heading_sections(source, "## "@));
        if cs.len() == 0 {
            seq![clip(source, MAX_CHUNK_CHARS as int)]
        } else {
            cs
        }
    }
}

/// Appends the chunks of an oversized section to `out`.
fn push_subsections(section: &str, out: &mut Vec<String>)
    ensures
        string_views(final(out)@) == string_views(old(out)@) + subsection_texts(
            heading_sections(section@, "### "@),
        ),
{
    let subs = split_on_heading(section, "### ");
    let ghost start = string_views(out@);
    let mut k: usize = 0;
    while k < subs.len()
        invariant
            k <= subs.len(),
            string_views(subs@) == heading_sections(section@, "### "@),
            string_views(out@) == start + subsection_texts(string_views(subs@).take(k as int)),
        decreases subs.len() - k,
    {
        let sub = chars_of(subs[k].as_str());
        proof {
            assert(string_views(subs@).take(k + 1).drop_last() =~= string_views(subs@).take(
                k as int,
            ));
            assert(string_views(subs@).take(k + 1).last() == sub@);
        }
        if !blank(&sub) {
            let n = fit_prefix(&sub, MAX_CHUNK_CHARS);
            let c = copy_range(&sub, 0, n);
            let e = trim_end_len(&c);
            let piece = string_of_range(&c, 0, e);
            proof {
                assert(c@ =~= clip(sub@, MAX_CHUNK_CHARS as int));
                assert(piece@ =~= c@.take(e as int));
                crate::text::lemma_string_views_push(out@, piece);
                assert(string_views(out@.push(piece)) =~= start + subsection_texts(
                    string_views(subs@).take(k + 1),
                ));
            }
            out.push(piece);
        } else {
            assert(string_views(out@) =~= start + subsection_texts(
                string_views(subs@).take(k + 1),
            ));
        }
        k = k + 1;
    }
    assert(string_views(subs@).take(k as int) =~= string_views(subs@));
}

/// The chunk texts of a markdown document (see [`markdown_chunk_texts`]).
pub fn markdown_chunk_strings(source: &str) -> (r: Vec<String>)
    ensures
        string_views(r@) == markdown_chunk_texts(source@),
{
    let v = chars_of(source);
    let mut out: Vec<String> = Vec::new();
    if utf8_len_upto(&v, MAX_CHUNK_CHARS).is_some() {
        out.push(string_of(&v));
        assert(string_views(out@) =~= seq![source@]);
        return out;
    }
    let sections = split_on_heading(source, "## ");
    let mut k: usize = 0;
    while k < sections.len()
        invariant
            k <= sections.len(),
            v@ == source@,
            string_views(sections@) == heading_sections(source@, "## "@),
            string_views(out@) == section_texts(string_views(sections@).take(k as int)),
        decreases sections.len() - k,
    {
        let section = &sections[k];
        let sv = chars_of(section.as_str());
        proof {
            assert(string_views(sections@).take(k + 1).drop_last() =~= string_views(
                sections@,
            ).take(k as int));
            assert(string_views(sections@).take(k + 1).last() == sv@);
        }
        if !blank(&sv) {
            if utf8_len_upto(&sv, MAX_CHUNK_CHARS).is_some() {
                let e = trim_end_len(&sv);
                let piece = string_of_range(&sv, 0, e);
                proof {
                    assert(piece@ =~= sv@.take(e as int));
                    crate::text::lemma_string_views_push(out@, piece);
                }
                out.push(piece);
            } else {
                push_subsections(section.as_str(), &mut out);
            }
        }
        k = k + 1;
    }
    assert(string_views(sections@).take(k as int) =~= string_views(sections@));
    if out.len() == 0 {
        let n = fit_prefix(&v, MAX_CHUNK_CHARS);
        out.push(string_of_range(&v, 0, n));
        assert(string_views(out@) =~= seq![clip(source@, MAX_CHUNK_CHARS as int)]);
    }
    out
}

/// Splits a markdown document into chunks (see [`markdown_chunk_texts`]),
/// numbered from zero.
pub fn chunk_markdown(source: &str) -> (r: Vec<MarkdownChunk>)
    requires
        markdown_chunk_texts(source@).len() <= i32::MAX,
    ensures
        numbered(r@, markdown_chunk_texts(source@)),
{
    let contents = markdown_chunk_strings(source);
    number_chunks(&contents)
}

// ── Previews ──────────────────────────────────────────────────────────────────

/// Previews are cut to at most this many UTF-8 bytes.
pub const PREVIEW_BYTES: usize = 280;

/// First position `j >= i` holding a non-whitespace character, or `s.len()`.
pub open spec fn word_start(s: Seq<char>, i: int) -> int
    decreases s.len() - i,
{
    if i >= s.len() {
        s.len() as int
    } else if !is_ws(s[i]) {
        i
    } else {
        word_start(s, i + 1)
    }
}

/// First position `j >= i` holding a whitespace character, or `s.len()`.
pub open spec fn word_end(s: Seq<char>, i: int) -> int
    decreases s.len() - i,
{
    if i >= s.len() {
        s.len() as int
    } else if is_ws(s[i]) {
        i
    } else {
        word_end(s, i + 1)
    }
}

/// Bounds and meaning of [`word_start`].
pub proof fn lemma_word_start(s: Seq<char>, i: int)
    requires
        0 <= i <= s.len(),
    ensures
        i <= word_start(s, i) <= s.len(),
        word_start(s, i) < s.len() ==> !is_ws(s[word_start(s, i)]),
        forall|j: int| i <= j < word_start(s, i) ==> is_ws(#[trigger] s[j]),
    decreases s.len() - i,
{
    if i < s.len() && is_ws(s[i]) {
        lemma_word_start(s, i + 1);
    }
}

/// Bounds and meaning of [`word_end`].
pub proof fn lemma_word_end(s: Seq<char>, i: int)
    requires
        0 <= i <= s.len(),
    ensures
        i <= word_end(s, i) <= s.len(),
        word_end(s, i) < s.len() ==> is_ws(s[word_end(s, i)]),
        forall|j: int| i <= j < word_end(s, i) ==> !is_ws(#[trigger] s[j]),
    decreases s.len() - i,
{
    if i < s.len() && !is_ws(s[i]) {
        lemma_word_end(s, i + 1);
    }
}

/// The words of `s` from position `i` on: its maximal runs of
/// non-whitespace characters, in order (`str::split_whitespace`).
pub open spec fn words_from(s: Seq<char>, i: int) -> Seq<Seq<char>>
    decreases s.len() - i,
{
    if i < 0 || i >= s.len() {
        Seq::empty()
    } else {
        let j = word_start(s, i);
        if j >= s.len() {
            Seq::empty()
        } else {
            proof {
                lemma_word_start(s, i);
                lemma_word_end(s, j);
            }
            let k = word_end(s, j);
            seq![s.subrange(j, k)] + words_from(s, k)
        }
    }
}

/// The words of `s` joined by single spaces.
pub open spec fn join_words(ws: Seq<Seq<char>>) -> Seq<char>
    decreases ws.len(),
{
    if ws.len() == 0 {
        Seq::empty()
    } else if ws.len() == 1 {
        ws[0]
    } else {
        join_words(ws.drop_last()) + seq![' '] + ws.last()
    }
}

/// `s` with every run of whitespace replaced by one space and none at either end.
pub open spec fn collapse_ws(s: Seq<char>) -> Seq<char> {
    join_words(words_from(s, 0))
}

/// The preview of a chunk: its text with whitespace collapsed, cut to
/// [`PREVIEW_BYTES`] bytes.
pub open spec fn preview_text(content: Seq<char>) -> Seq<char> {
    clip(collapse_ws(content), PREVIEW_BYTES as int)
}

/// `s` with every run of whitespace replaced by one space and none at either
/// end (`split_whitespace` joined with `" "`).
fn collapse_whitespace(v: &Vec<char>) -> (r: Vec<char>)
    ensures
        r@ == collapse_ws(v@),
{
    let mut out: Vec<char> = Vec::new();
    let ghost mut done: Seq<Seq<char>> = Seq::empty();
    let mut i: usize = 0;
    loop
        invariant
            i <= v.len(),
            done + words_from(v@, i as int) == words_from(v@, 0),
            out@ == join_words(done),
            (done.len() == 0) == (out@.len() == 0),
        decreases v.len() - i,
    {
        let mut j: usize = i;
        while j < v.len() && is_whitespace(v[j])
            invariant
                i <= j <= v.len(),
                forall|m: int| i <= m < j ==> is_ws(#[trigger] v@[m]),
            decreases v.len() - j,
        {
            j = j + 1;
        }
        proof {
            lemma_word_start(v@, i as int);
            lemma_word_start_at(v@, i as int, j as int);
        }
        if j == v.len() {
            proof {
                assert(words_from(v@, i as int) =~= Seq::<Seq<char>>::empty());
                assert(done =~= words_from(v@, 0));
            }
            return out;
        }
        let mut k: usize = j;
        while k < v.len() && !is_whitespace(v[k])
            invariant
                j <= k <= v.len(),
                forall|m: int| j <= m < k ==> !is_ws(#[trigger] v@[m]),
            decreases v.len() - k,
        {
            k = k + 1;
        }
        proof {
            lemma_word_end_at(v@, j as int, k as int);
        }
        let ghost before = out@;
        if out.len() > 0 {
            out.push(' ');
        }
        let ghost mid = out@;
        let mut m: usize = j;
        while m < k
            invariant
                j <= m <= k <= v.len(),
                out@ == mid + v@.subrange(j as int, m as int),
            decreases k - m,
        {
            out.push(v[m]);
            m = m + 1;
            assert(out@ =~= mid + v@.subrange(j as int, m as int));
        }
        proof {
            let w = v@.subrange(j as int, k as int);
            assert(words_from(v@, i as int) =~= seq![w] + words_from(v@, k as int));
            assert(done.push(w).drop_last() =~= done);
            if done.len() == 0 {
                assert(out@ =~= w);
                assert(join_words(done.push(w)) == w);
            } else {
                assert(out@ =~= before + seq![' '] + w);
            }
            assert(done.push(w) + words_from(v@, k as int) =~= done + words_from(v@, i as int));
            done = done.push(w);
        }
        i = k;
    }
}

proof fn lemma_word_start_at(s: Seq<char>, i: int, j: int)
    requires
        0 <= i <= j <= s.len(),
        forall|m: int| i <= m < j ==> is_ws(#[trigger] s[m]),
        j < s.len() ==> !is_ws(s[j]),
    ensures
        word_start(s, i) == j,
    decreases j - i,
{
    if i < j {
        lemma_word_start_at(s, i + 1, j);
    }
}

proof fn lemma_word_end_at(s: Seq<char>, j: int, k: int)
    requires
        0 <= j <= k <= s.len(),
        forall|m: int| j <= m < k ==> !is_ws(#[trigger] s[m]),
        k < s.len() ==> is_ws(s[k]),
    ensures
        word_end(s, j) == k,
    decreases k - j,
{
    if j < k {
        lemma_word_end_at(s, j + 1, k);
    }
}

/// The preview of a chunk (see [`preview_text`]).
pub fn preview_of(content: &str) -> (r: String)
    ensures
        r@ == preview_text(content@),
        utf8_len(r@) <= PREVIEW_BYTES,
{
    let v = chars_of(content);
    let c = collapse_whitespace(&v);
    let n = fit_prefix(&c, PREVIEW_BYTES);
    proof {
        lemma_fit_prefix(c@, PREVIEW_BYTES as int);
    }
    string_of_range(&c, 0, n)
}

// ── Which files are documentation ─────────────────────────────────────────────

/// A relative path as classified: `'\\'` turned into `'/'`, and a leading
/// `'/'` added.
pub open spec fn doc_path(rel: Seq<char>) -> Seq<char> {
    seq!['/'] + rel.map_values(|c: char| if c == '\\' { '/' } else { c })
}

/// The documentation class of the normalized path `p`, whose lowercase form
/// is `lower`. More specific patterns are tested first.
pub open spec fn doc_class(p: Seq<char>, lower: Seq<char>) -> Seq<char> {
    if has_suffix(p, "/AGENTS.md"@) || p == "/AGENTS.md"@ {
        "agent_instruction"@
    } else if has_infix(p, "/.agent/workflows/"@) && has_suffix(p, ".md"@) {
        "workflow"@
    } else if has_infix(p, "/.agent/skills/"@) && has_suffix(p, ".md"@) {
        "skill"@
    } else if has_infix(lower, "/.agent/sops/"@) && has_suffix(p, ".md"@) {
        "sop"@
    } else if has_infix(p, "/.agent/plans/"@) && has_suffix(p, ".md"@) {
        "plan"@
    } else if has_suffix(lower, "/.agent/readme.md"@) {
        "agent_index"@
    } else if has_suffix(lower, "/readme.md"@) || lower == "/readme.md"@ {
        "readme"@
    } else {
        "docs"@
    }
}

/// The documentation class of the normalized path `p`, given its lowercase
/// form `lower` (see [`doc_class`]).
pub fn classify_path(p: &str, lower: &str) -> (r: &'static str)
    ensures
        r@ == doc_class(p@, lower@),
{
    let pv = chars_of(p);
    let lv = chars_of(lower);
    if ends_with_text(&pv, "/AGENTS.md") || is_text(&pv, "/AGENTS.md") {
        "agent_instruction"
    } else if contains_text(&pv, "/.agent/workflows/") && ends_with_text(&pv, ".md") {
        "workflow"
    } else if contains_text(&pv, "/.agent/skills/") && ends_with_text(&pv, ".md") {
        "skill"
    } else if contains_text(&lv, "/.agent/sops/") && ends_with_text(&pv, ".md") {
        "sop"
    } else if contains_text(&pv, "/.agent/plans/") && ends_with_text(&pv, ".md") {
        "plan"
    } else if ends_with_text(&lv, "/.agent/readme.md") {
        "agent_index"
    } else if ends_with_text(&lv, "/readme.md") || is_text(&lv, "/readme.md") {
        "readme"
    } else {
        "docs"
    }
}

/// The normalized form of a relative path (see [`doc_path`]).
fn normalize_doc_path(rel: &str) -> (r: String)
    ensures
        r@ == doc_path(rel@),
{
    let v = chars_of(rel);
    let mut out: Vec<char> = Vec::new();
    out.push('/');
    let mut i: usize = 0;
    while i < v.len()
        invariant
            i <= v.len(),
            out@ == seq!['/'] + v@.take(i as int).map_values(
                |c: char| if c == '\\' { '/' } else { c },
            ),
        decreases v.len() - i,
    {
        let c = v[i];
        if c == '\\' {
            out.push('/');
        } else {
            out.push(c);
        }
        i = i + 1;
        assert(out@ =~= seq!['/'] + v@.take(i as int).map_values(
            |c: char| if c == '\\' { '/' } else { c },
        ));
    }
    assert(v@.take(i as int) =~= v@);
    string_of(&out)
}

/// The documentation class of a markdown file at `rel_path` (relative to the
/// repository): always some class, `"docs"` when no pattern applies.
pub fn classify_doc(rel_path: &str) -> (r: Option<&'static str>)
    ensures
        r matches Some(k) && k@ == doc_class(
            doc_path(rel_path@),
            lowercase(doc_path(rel_path@)),
        ),
{
    let p = normalize_doc_path(rel_path);
    let lower = to_lowercase(p.as_str());
    Some(classify_path(p.as_str(), lower.as_str()))
}

/// The file names under which a plain-text change log is recognized.
pub open spec fn is_changelog_name(name: Seq<char>) -> bool {
    ||| name == "CHANGELOG"@
    ||| name == "ChangeLog"@
    ||| name == "CHANGES"@
    ||| name == "NEWS"@
    ||| name == "HISTORY"@
    ||| name == "CHANGELOG.txt"@
    ||| name == "CHANGES.txt"@
    ||| name == "NEWS.txt"@
    ||| name == "HISTORY.txt"@
    ||| name == "CHANGELOG.rst"@
    ||| name == "CHANGES.rst"@
    ||| name == "NEWS.rst"@
    ||| name == "HISTORY.rst"@
}

/// Whether `name` is the file name of a change log.
pub fn is_changelog_filename(name: &str) -> (r: bool)
    ensures
        r == is_changelog_name(name@),
{
    let v = chars_of(name);
    is_text(&v, "CHANGELOG") || is_text(&v, "ChangeLog") || is_text(&v, "CHANGES") || is_text(
        &v,
        "NEWS",
    ) || is_text(&v, "HISTORY") || is_text(&v, "CHANGELOG.txt") || is_text(&v, "CHANGES.txt")
        || is_text(&v, "NEWS.txt") || is_text(&v, "HISTORY.txt") || is_text(&v, "CHANGELOG.rst")
        || is_text(&v, "CHANGES.rst") || is_text(&v, "NEWS.rst") || is_text(&v, "HISTORY.rst")
}

// ── Kinds of documentation files ──────────────────────────────────────────────

/// The kind of documentation a file is, from its name, its lowercase
/// extension and its path relative to the repository; `None` when it is not
/// documentation.
pub open spec fn doc_kind_spec(name: Seq<char>, ext: Seq<char>, rel: Seq<char>) -> Option<Seq<char>> {
    if ext == "lhs"@ {
        Some("lhs_prose"@)
    } else if is_changelog_name(name) {
        Some("changelog"@)
    } else if ext == "md"@ {
        Some(doc_class(doc_path(rel), lowercase(doc_path(rel))))
    } else {
        None
    }
}

/// The kind of documentation of the file named `file_name` at `rel_path`,
/// given its lowercase extension `ext`.
pub fn doc_kind_from(file_name: &str, ext: &str, rel_path: &str) -> (r: Option<String>)
    ensures
        r matches Some(k) ==> doc_kind_spec(file_name@, ext@, rel_path@) == Some(k@),
        r is None ==> doc_kind_spec(file_name@, ext@, rel_path@) is None,
{
    let e = chars_of(ext);
    if is_text(&e, "lhs") {
        let k = chars_of("lhs_prose");
        Some(string_of(&k))
    } else if is_changelog_filename(file_name) {
        let k = chars_of("changelog");
        Some(string_of(&k))
    } else if is_text(&e, "md") {
        match classify_doc(rel_path) {
            Some(c) => {
                let k = chars_of(c);
                Some(string_of(&k))
            },
            None => None,
        }
    } else {
        None
    }
}

/// The kind of documentation of the file named `file_name` at `rel_path`.
pub fn doc_kind_for(file_name: &str, rel_path: &str) -> (r: Option<String>)
    ensures
        r matches Some(k) ==> doc_kind_spec(file_name@, ext_lower(file_name@), rel_path@)
            == Some(k@),
        r is None ==> doc_kind_spec(file_name@, ext_lower(file_name@), rel_path@) is None,
{
    let ext = lowercase_extension(file_name);
    doc_kind_from(file_name, ext.as_str(), rel_path)
}

// ── Prose of literate Haskell files ───────────────────────────────────────────

/// The first code block at or after position `i`.
pub open spec fn next_code_after(bs: Seq<BlockSpec>, i: int) -> Option<BlockSpec>
    decreases bs.len() - i,
{
    if i < 0 || i >= bs.len() {
        None
    } else if bs[i].kind == BlockKind::Code {
        Some(bs[i])
    } else {
        next_code_after(bs, i + 1)
    }
}

/// The header that points a prose paragraph at the code block after it.
pub open spec fn code_header(next: Option<BlockSpec>) -> Seq<char> {
    match next {
        Some(c) => "[Adjacent code: lines "@ + decimal(c.start_line as nat) + "-"@ + decimal(
            c.end_line as nat,
        ) + "]\n\n"@,
        None => Seq::empty(),
    }
}

/// Whether a chunk text is long enough to index: its trimmed text has at
/// least [`MIN_CHUNK_CHARS`] bytes.
pub open spec fn long_enough(t: Seq<char>) -> bool {
    utf8_len(trim(t)) >= MIN_CHUNK_CHARS
}

/// The paragraphs of `ps` long enough to index, each behind `header`.
pub open spec fn headed_paragraphs(ps: Seq<Seq<char>>, header: Seq<char>) -> Seq<Seq<char>>
    decreases ps.len(),
{
    if ps.len() == 0 {
        Seq::empty()
    } else {
        let rest = headed_paragraphs(ps.drop_last(), header);
        if long_enough(ps.last()) {
            rest.push(header + ps.last())
        } else {
            rest
        }
    }
}

/// The prose records of the first `n` blocks: for each prose block, its
/// paragraphs long enough to index, each behind the header of the next code
/// block in the file.
pub open spec fn prose_records_upto(bs: Seq<BlockSpec>, n: int) -> Seq<Seq<char>>
    decreases n,
{
    if n <= 0 {
        Seq::empty()
    } else {
        let rest = prose_records_upto(bs, n - 1);
        let b = bs[n - 1];
        if b.kind == BlockKind::Prose {
            rest + headed_paragraphs(paragraphs(b.content), code_header(next_code_after(bs, n)))
        } else {
            rest
        }
    }
}

/// The prose records of a literate Haskell source.
pub open spec fn lhs_prose_records(source: Seq<char>) -> Seq<Seq<char>> {
    let bs = spec_parse_blocks(source);
    prose_records_upto(bs, bs.len() as int)
}

/// The header for the code block after block `i`, built from `blocks`.
fn header_after(blocks: &Vec<LhsBlock>, i: usize) -> (r: Vec<char>)
    requires
        i <= blocks.len(),
    ensures
        r@ == code_header(next_code_after(block_views(blocks@), i as int)),
{
    let mut j: usize = i;
    while j < blocks.len() && blocks[j].kind != BlockKind::Code
        invariant
            i <= j <= blocks.len(),
            next_code_after(block_views(blocks@), i as int) == next_code_after(
                block_views(blocks@),
                j as int,
            ),
        decreases blocks.len() - j,
    {
        j = j + 1;
    }
    let mut out: Vec<char> = Vec::new();
    if j < blocks.len() {
        let b = &blocks[j];
        let s1 = chars_of("[Adjacent code: lines ");
        let s2 = decimal_string(b.start_line as u64);
        let s3 = chars_of("-");
        let s4 = decimal_string(b.end_line as u64);
        let s5 = chars_of("]\n\n");
        extend_chars(&mut out, &s1);
        let d2 = chars_of(s2.as_str());
        extend_chars(&mut out, &d2);
        extend_chars(&mut out, &s3);
        let d4 = chars_of(s4.as_str());
        extend_chars(&mut out, &d4);
        extend_chars(&mut out, &s5);
    }
    out
}

/// The paragraphs of `content` long enough to index, each behind `header`.
fn headed_paragraph_strings(content: &str, header: &Vec<char>) -> (r: Vec<String>)
    ensures
        string_views(r@) == headed_paragraphs(paragraphs(content@), header@),
{
    let paras = paragraph_strings(content);
    let mut out: Vec<String> = Vec::new();
    let mut k: usize = 0;
    while k < paras.len()
        invariant
            k <= paras.len(),
            string_views(paras@) == paragraphs(content@),
            string_views(out@) == headed_paragraphs(string_views(paras@).take(k as int), header@),
        decreases paras.len() - k,
    {
        let pv = chars_of(paras[k].as_str());
        proof {
            assert(string_views(paras@).take(k + 1).drop_last() =~= string_views(paras@).take(
                k as int,
            ));
            assert(string_views(paras@).take(k + 1).last() == pv@);
        }
        let (a, b) = trim_bounds(&pv);
        let t = copy_range(&pv, a, b);
        if utf8_len_upto(&t, MIN_CHUNK_CHARS - 1).is_none() {
            let mut c: Vec<char> = Vec::new();
            extend_chars(&mut c, header);
            extend_chars(&mut c, &pv);
            let rec = string_of(&c);
            proof {
                crate::text::lemma_string_views_push(out@, rec);
            }
            out.push(rec);
        }
        k = k + 1;
    }
    assert(string_views(paras@).take(k as int) =~= string_views(paras@));
    out
}

/// The prose records of a literate Haskell source (see [`lhs_prose_records`]).
pub fn lhs_prose_strings(source: &str) -> (r: Vec<String>)
    ensures
        string_views(r@) == lhs_prose_records(source@),
{
    let parsed = parse_lhs(source);
    let blocks = &parsed.blocks;
    let mut out: Vec<String> = Vec::new();
    let mut i: usize = 0;
    while i < blocks.len()
        invariant
            i <= blocks.len(),
            block_views(blocks@) == spec_parse_blocks(source@),
            string_views(out@) == prose_records_upto(block_views(blocks@), i as int),
        decreases blocks.len() - i,
    {
        if blocks[i].kind == BlockKind::Prose {
            let header = header_after(blocks, i + 1);
            let recs = headed_paragraph_strings(blocks[i].content.as_str(), &header);
            let mut k: usize = 0;
            let ghost start = string_views(out@);
            while k < recs.len()
                invariant
                    k <= recs.len(),
                    string_views(out@) == start + string_views(recs@).take(k as int),
                decreases recs.len() - k,
            {
                proof {
                    crate::text::lemma_string_views_push(out@, recs[k as int]);
                }
                out.push(recs[k].clone());
                k = k + 1;
                assert(string_views(out@) =~= start + string_views(recs@).take(k as int));
            }
            assert(string_views(recs@).take(k as int) =~= string_views(recs@));
        }
        i = i + 1;
    }
    out
}

// ── The chunks of one documentation file ──────────────────────────────────────

/// One chunk of a documentation file, ready to be embedded and stored.
#[derive(Debug, Clone)]
pub struct DocChunk {
    pub chunk_index: i32,
    pub title: String,
    pub content: String,
    pub preview: String,
}

/// Mathematical model of a [`DocChunk`].
pub struct DocChunkSpec {
    pub chunk_index: int,
    pub title: Seq<char>,
    pub content: Seq<char>,
    pub preview: Seq<char>,
}

impl View for DocChunk {
    type V = DocChunkSpec;

    open spec fn view(&self) -> DocChunkSpec {
        DocChunkSpec {
            chunk_index: self.chunk_index as int,
            title: self.title@,
            content: self.content@,
            preview: self.preview@,
        }
    }
}

/// Views of a sequence of chunks.
pub open spec fn doc_chunk_views(cs: Seq<DocChunk>) -> Seq<DocChunkSpec> {
    Seq::new(cs.len(), |i: int| cs[i]@)
}

/// The stored chunk for text `t` at position `k`.
pub open spec fn doc_chunk_at(k: int, title: Seq<char>, t: Seq<char>) -> DocChunkSpec {
    DocChunkSpec { chunk_index: k, title, content: t, preview: preview_text(t) }
}

/// The chunks kept of `texts`: those long enough to index, each keeping its
/// position among all of `texts` as its index.
pub open spec fn kept_chunks(texts: Seq<Seq<char>>, title: Seq<char>) -> Seq<DocChunkSpec>
    decreases texts.len(),
{
    if texts.len() == 0 {
        Seq::empty()
    } else {
        let rest = kept_chunks(texts.drop_last(), title);
        if long_enough(texts.last()) {
            rest.push(doc_chunk_at(texts.len() - 1, title, texts.last()))
        } else {
            rest
        }
    }
}

/// The chunks of a literate Haskell file: its prose records, numbered from zero.
pub open spec fn numbered_records(recs: Seq<Seq<char>>, title: Seq<char>) -> Seq<DocChunkSpec> {
    Seq::new(recs.len(), |k: int| doc_chunk_at(k, title, recs[k]))
}

/// The chunks of a documentation file of kind `kind` with text `source`,
/// whose file stem is `stem`.
pub open spec fn spec_doc_chunks(kind: Seq<char>, source: Seq<char>, stem: Seq<char>) -> Seq<
    DocChunkSpec,
> {
    if kind == "lhs_prose"@ {
        numbered_records(lhs_prose_records(source), stem)
    } else if kind == "changelog"@ {
        kept_chunks(paragraphs(source), stem)
    } else {
        kept_chunks(markdown_chunk_texts(source), spec_extract_title(source, stem))
    }
}

/// The chunk counts of a file fit the `i32` chunk indices.
pub open spec fn doc_counts_fit(kind: Seq<char>, source: Seq<char>) -> bool {
    if kind == "lhs_prose"@ {
        let bs = spec_parse_blocks(source);
        &&& lhs_prose_records(source).len() <= i32::MAX
        &&& forall|i: int| 0 <= i < bs.len() ==> paragraphs(#[trigger] bs[i].content).len() <= i32::MAX
    } else if kind == "changelog"@ {
        paragraphs(source).len() <= i32::MAX
    } else {
        markdown_chunk_texts(source).len() <= i32::MAX
    }
}

/// The chunk stored for text `t` at position `k`.
fn make_doc_chunk(k: i32, title: &String, t: &String) -> (r: DocChunk)
    ensures
        r@ == doc_chunk_at(k as int, title@, t@),
{
    DocChunk { chunk_index: k, title: title.clone(), content: t.clone(), preview: preview_of(t.as_str()) }
}

fn is_long_enough(t: &str) -> (r: bool)
    ensures
        r == long_enough(t@),
{
    let v = chars_of(t);
    let (a, b) = trim_bounds(&v);
    let c = copy_range(&v, a, b);
    utf8_len_upto(&c, MIN_CHUNK_CHARS - 1).is_none()
}

/// The chunks kept of `texts`, titled `title` (see [`kept_chunks`]).
fn keep_chunks(texts: &Vec<String>, title: &String) -> (r: Vec<DocChunk>)
    requires
        texts.len() <= i32::MAX,
    ensures
        doc_chunk_views(r@) == kept_chunks(string_views(texts@), title@),
{
    let mut out: Vec<DocChunk> = Vec::new();
    let mut k: usize = 0;
    while k < texts.len()
        invariant
            k <= texts.len() <= i32::MAX,
            doc_chunk_views(out@) == kept_chunks(string_views(texts@).take(k as int), title@),
        decreases texts.len() - k,
    {
        proof {
            assert(string_views(texts@).take(k + 1).drop_last() =~= string_views(texts@).take(
                k as int,
            ));
            assert(string_views(texts@).take(k + 1).last() == texts@[k as int]@);
        }
        if is_long_enough(texts[k].as_str()) {
            let c = make_doc_chunk(k as i32, title, &texts[k]);
            out.push(c);
            assert(doc_chunk_views(out@) =~= kept_chunks(
                string_views(texts@).take(k + 1),
                title@,
            ));
        }
        k = k + 1;
    }
    assert(string_views(texts@).take(k as int) =~= string_views(texts@));
    out
}

/// Numbers the prose records `recs` of a literate Haskell file.
fn number_records(recs: &Vec<String>, title: &String) -> (r: Vec<DocChunk>)
    requires
        recs.len() <= i32::MAX,
    ensures
        doc_chunk_views(r@) == numbered_records(string_views(recs@), title@),
{
    let mut out: Vec<DocChunk> = Vec::new();
    let mut idx: i32 = 0;
    let mut k: usize = 0;
    while k < recs.len()
        invariant
            k <= recs.len() <= i32::MAX,
            idx == k,
            out.len() == k,
            doc_chunk_views(out@) == numbered_records(string_views(recs@).take(k as int), title@),
        decreases recs.len() - k,
    {
        let c = make_doc_chunk(idx, title, &recs[k]);
        let ghost prev = out@;
        out.push(c);
        proof {
            let sv = string_views(recs@);
            assert forall|j: int| 0 <= j < k + 1 implies doc_chunk_views(out@)[j] == numbered_records(
                sv.take(k + 1),
                title@,
            )[j] by {
                if j < k {
                    assert(out@[j] == prev[j]);
                    assert(doc_chunk_views(prev)[j] == numbered_records(sv.take(k as int), title@)[j]);
                }
            }
        }
        assert(doc_chunk_views(out@) =~= numbered_records(
            string_views(recs@).take(k + 1),
            title@,
        ));
        idx = idx + 1;
        k = k + 1;
    }
    assert(string_views(recs@).take(k as int) =~= string_views(recs@));
    out
}

/// The chunks of the documentation file of kind `doc_kind` whose text is
/// `source` and whose file stem is `file_stem`: the prose paragraphs of a
/// literate Haskell file, the paragraphs of a change log, or the sections of
/// a markdown document; chunks too short to index are left out.
pub fn doc_chunks(doc_kind: &str, source: &str, file_stem: &str) -> (r: Vec<DocChunk>)
    requires
        doc_counts_fit(doc_kind@, source@),
    ensures
        doc_chunk_views(r@) == spec_doc_chunks(doc_kind@, source@, file_stem@),
{
    let kind = chars_of(doc_kind);
    let stem_chars = chars_of(file_stem);
    let stem = string_of(&stem_chars);
    if is_text(&kind, "lhs_prose") {
        let recs = lhs_prose_strings(source);
        number_records(&recs, &stem)
    } else if is_text(&kind, "changelog") {
        let texts = paragraph_strings(source);
        keep_chunks(&texts, &stem)
    } else {
        let title = extract_title(source, file_stem);
        let texts = markdown_chunk_strings(source);
        keep_chunks(&texts, &title)
    }
}

// ── Laws of the chunkers ──────────────────────────────────────────────────────

/// The UTF-8 length of a prefix is at most that of the whole text.
proof fn lemma_utf8_len_prefix(s: Seq<char>, k: int)
    requires
        0 <= k <= s.len(),
    ensures
        utf8_len(s.take(k)) <= utf8_len(s),
{
    crate::text::lemma_utf8_len_mono(s, k, s.len() as int);
    assert(s.take(s.len() as int) =~= s);
}

/// A clipped text fits its limit and keeps at least one character of a
/// non-empty text when the limit holds any character.
proof fn lemma_clip(s: Seq<char>, max: int)
    requires
        max >= 4,
    ensures
        utf8_len(clip(s, max)) <= max,
        s.len() > 0 ==> clip(s, max).len() > 0,
        clip(s, max).len() == fit_prefix_len(s, max),
        0 <= fit_prefix_len(s, max) <= s.len(),
{
    lemma_fit_prefix(s, max);
    if s.len() > 0 && fit_prefix_len(s, max) == 0 {
        crate::text::lemma_utf8_len_step(s, 0);
        assert(s.take(0) =~= Seq::<char>::empty());
    }
}

/// A non-empty trimmed text starts with a non-whitespace character.
proof fn lemma_trim_starts_solid(s: Seq<char>)
    ensures
        trim(s).len() > 0 ==> !is_ws(trim(s)[0]),
{
    crate::text::lemma_lead_ws(s);
    let t = crate::text::trim_start(s);
    crate::text::lemma_trail_ws(t);
    if trim(s).len() > 0 {
        assert(trim(s)[0] == t[0]);
        assert(t[0] == s[crate::text::lead_ws(s) as int]);
    }
}

/// Every paragraph of a text is non-empty, starts with a non-whitespace
/// character, and fits in [`MAX_CHUNK_CHARS`] bytes.
pub proof fn lemma_paragraphs_shape(text: Seq<char>)
    ensures
        forall|k: int|
            0 <= k < paragraphs(text).len() ==> (#[trigger] paragraphs(text)[k]).len() > 0
                && !is_ws(paragraphs(text)[k][0]) && utf8_len(paragraphs(text)[k])
                <= MAX_CHUNK_CHARS,
{
    lemma_paragraph_texts_shape(para_pieces(text));
}

proof fn lemma_paragraph_texts_shape(ps: Seq<Seq<char>>)
    ensures
        forall|k: int|
            0 <= k < paragraph_texts(ps).len() ==> (#[trigger] paragraph_texts(ps)[k]).len() > 0
                && !is_ws(paragraph_texts(ps)[k][0]) && utf8_len(paragraph_texts(ps)[k])
                <= MAX_CHUNK_CHARS,
    decreases ps.len(),
{
    if ps.len() > 0 {
        lemma_paragraph_texts_shape(ps.drop_last());
        let t = trim(ps.last());
        if t.len() > 0 {
            lemma_clip(t, MAX_CHUNK_CHARS as int);
            lemma_trim_starts_solid(ps.last());
            let c = clip(t, MAX_CHUNK_CHARS as int);
            assert(c == t.take(fit_prefix_len(t, MAX_CHUNK_CHARS as int)));
            assert(c[0] == t[0]);
            let rest = paragraph_texts(ps.drop_last());
            assert forall|k: int| 0 <= k < paragraph_texts(ps).len() implies (#[trigger] paragraph_texts(
                ps,
            )[k]).len() > 0 && !is_ws(paragraph_texts(ps)[k][0]) && utf8_len(
                paragraph_texts(ps)[k],
            ) <= MAX_CHUNK_CHARS by {
                if k < rest.len() {
                    assert(paragraph_texts(ps)[k] == rest[k]);
                }
            }
        }
    }
}

proof fn lemma_trim_end_fits(s: Seq<char>)
    ensures
        utf8_len(trim_end(s)) <= utf8_len(s),
{
    crate::text::lemma_trail_ws(s);
    lemma_utf8_len_prefix(s, s.len() - crate::text::trail_ws(s));
}

proof fn lemma_subsection_texts_fit(subs: Seq<Seq<char>>)
    ensures
        forall|k: int|
            0 <= k < subsection_texts(subs).len() ==> utf8_len(#[trigger] subsection_texts(subs)[k])
                <= MAX_CHUNK_CHARS,
    decreases subs.len(),
{
    if subs.len() > 0 {
        lemma_subsection_texts_fit(subs.drop_last());
        let c = clip(subs.last(), MAX_CHUNK_CHARS as int);
        lemma_clip(subs.last(), MAX_CHUNK_CHARS as int);
        lemma_trim_end_fits(c);
        let rest = subsection_texts(subs.drop_last());
        assert forall|k: int| 0 <= k < subsection_texts(subs).len() implies utf8_len(
            #[trigger] subsection_texts(subs)[k],
        ) <= MAX_CHUNK_CHARS by {
            if k < rest.len() {
                assert(subsection_texts(subs)[k] == rest[k]);
            }
        }
    }
}

proof fn lemma_section_texts_fit(secs: Seq<Seq<char>>)
    ensures
        forall|k: int|
            0 <= k < section_texts(secs).len() ==> utf8_len(#[trigger] section_texts(secs)[k])
                <= MAX_CHUNK_CHARS,
    decreases secs.len(),
{
    if secs.len() > 0 {
        lemma_section_texts_fit(secs.drop_last());
        let s = secs.last();
        let rest = section_texts(secs.drop_last());
        if !is_blank(s) {
            if utf8_len(s) <= MAX_CHUNK_CHARS {
                lemma_trim_end_fits(s);
                assert forall|k: int| 0 <= k < section_texts(secs).len() implies utf8_len(
                    #[trigger] section_texts(secs)[k],
                ) <= MAX_CHUNK_CHARS by {
                    if k < rest.len() {
                        assert(section_texts(secs)[k] == rest[k]);
                    }
                }
            } else {
                let subs = subsection_texts(heading_sections(s, "### "@));
                lemma_subsection_texts_fit(heading_sections(s, "### "@));
                assert forall|k: int| 0 <= k < section_texts(secs).len() implies utf8_len(
                    #[trigger] section_texts(secs)[k],
                ) <= MAX_CHUNK_CHARS by {
                    if k < rest.len() {
                        assert(section_texts(secs)[k] == rest[k]);
                    } else {
                        assert(section_texts(secs)[k] == subs[k - rest.len()]);
                    }
                }
            }
        }
    }
}

/// Every chunk of a markdown document fits in [`MAX_CHUNK_CHARS`] bytes.
pub proof fn lemma_markdown_chunks_fit(source: Seq<char>)
    ensures
        forall|k: int|
            0 <= k < markdown_chunk_texts(source).len() ==> utf8_len(
                #[trigger] markdown_chunk_texts(source)[k],
            ) <= MAX_CHUNK_CHARS,
{
    if utf8_len(source) > MAX_CHUNK_CHARS {
        lemma_section_texts_fit(heading_sections(source, "## "@));
        lemma_clip(source, MAX_CHUNK_CHARS as int);
    }
}

proof fn lemma_heading_fold_open(ls: Seq<Seq<char>>, prefix: Seq<char>)
    ensures
        heading_fold(ls, prefix).0.len() > 0 ==> has_prefix(heading_fold(ls, prefix).1, prefix),
        forall|k: int|
            1 <= k < heading_fold(ls, prefix).0.len() ==> has_prefix(
                #[trigger] heading_fold(ls, prefix).0[k],
                prefix,
            ),
    decreases ls.len(),
{
    if ls.len() > 0 {
        lemma_heading_fold_open(ls.drop_last(), prefix);
        let prev = heading_fold(ls.drop_last(), prefix);
        let l = ls.last();
        let f = heading_fold(ls, prefix);
        if has_prefix(l, prefix) && !is_blank(prev.1) {
            assert(l.push('\n').take(prefix.len() as int) =~= l.take(prefix.len() as int));
            assert forall|k: int| 1 <= k < f.0.len() implies has_prefix(#[trigger] f.0[k], prefix) by {
                if k < prev.0.len() {
                    assert(f.0[k] == prev.0[k]);
                }
            }
        } else {
            if prev.0.len() > 0 {
                assert((prev.1 + l.push('\n')).take(prefix.len() as int) =~= prev.1.take(
                    prefix.len() as int,
                ));
            }
        }
    }
}

/// Every section after the first begins with the heading prefix it was
/// split on.
pub proof fn lemma_sections_open_with_heading(text: Seq<char>, prefix: Seq<char>)
    ensures
        forall|k: int|
            1 <= k < heading_sections(text, prefix).len() ==> has_prefix(
                #[trigger] heading_sections(text, prefix)[k],
                prefix,
            ),
{
    let f = heading_fold(lines_of(text), prefix);
    lemma_heading_fold_open(lines_of(text), prefix);
    let all = if is_blank(f.1) {
        f.0
    } else {
        f.0.push(f.1)
    };
    assert forall|k: int| 1 <= k < heading_sections(text, prefix).len() implies has_prefix(
        #[trigger] heading_sections(text, prefix)[k],
        prefix,
    ) by {
        if k < f.0.len() {
            assert(all[k] == f.0[k]);
        }
    }
}

/// The lines `ls`, each followed by a newline, run together.
pub open spec fn terminated_lines(ls: Seq<Seq<char>>) -> Seq<char>
    decreases ls.len(),
{
    if ls.len() == 0 {
        Seq::empty()
    } else {
        terminated_lines(ls.drop_last()) + ls.last().push('\n')
    }
}

/// The texts `xs` run together.
pub open spec fn concat_texts(xs: Seq<Seq<char>>) -> Seq<char>
    decreases xs.len(),
{
    if xs.len() == 0 {
        Seq::empty()
    } else {
        concat_texts(xs.drop_last()) + xs.last()
    }
}

proof fn lemma_heading_fold_concat(ls: Seq<Seq<char>>, prefix: Seq<char>)
    ensures
        concat_texts(heading_fold(ls, prefix).0) + heading_fold(ls, prefix).1 == terminated_lines(ls),
        forall|k: int|
            0 <= k < heading_fold(ls, prefix).0.len() ==> !is_blank(
                #[trigger] heading_fold(ls, prefix).0[k],
            ),
    decreases ls.len(),
{
    if ls.len() > 0 {
        let prev = heading_fold(ls.drop_last(), prefix);
        lemma_heading_fold_concat(ls.drop_last(), prefix);
        let l = ls.last();
        let f = heading_fold(ls, prefix);
        if has_prefix(l, prefix) && !is_blank(prev.1) {
            assert(prev.0.push(prev.1).drop_last() =~= prev.0);
            assert(concat_texts(f.0) == concat_texts(prev.0) + prev.1);
            assert(concat_texts(f.0) + f.1 =~= concat_texts(prev.0) + prev.1 + l.push('\n'));
            assert forall|k: int| 0 <= k < f.0.len() implies !is_blank(#[trigger] f.0[k]) by {
                if k < prev.0.len() {
                    assert(f.0[k] == prev.0[k]);
                }
            }
        } else {
            assert(concat_texts(f.0) + f.1 =~= concat_texts(prev.0) + prev.1 + l.push('\n'));
        }
    }
}

proof fn lemma_concat_blank(xs: Seq<Seq<char>>, t: Seq<char>)
    requires
        is_blank(concat_texts(xs) + t),
        xs.len() > 0,
    ensures
        is_blank(xs.last()),
{
    let a = concat_texts(xs.drop_last());
    let whole = concat_texts(xs) + t;
    assert forall|i: int| 0 <= i < xs.last().len() implies is_ws(#[trigger] xs.last()[i]) by {
        assert(whole[a.len() + i] == xs.last()[i]);
    }
}

/// Splitting on headings loses nothing but a trailing blank run: the
/// sections run together give back the text's lines, each ended by a
/// newline, up to whitespace at the end; a text whose lines are all blank
/// comes back whole, as its only section.
pub proof fn lemma_sections_round_trip(text: Seq<char>, prefix: Seq<char>)
    ensures
        is_blank(terminated_lines(lines_of(text))) ==> heading_sections(text, prefix) == seq![text],
        !is_blank(terminated_lines(lines_of(text))) ==> exists|tail: Seq<char>|
            is_blank(tail) && concat_texts(heading_sections(text, prefix)) + tail == terminated_lines(
                lines_of(text),
            ),
{
    let ls = lines_of(text);
    let f = heading_fold(ls, prefix);
    lemma_heading_fold_concat(ls, prefix);
    let full = terminated_lines(ls);
    if is_blank(full) {
        if f.0.len() > 0 {
            lemma_concat_blank(f.0, f.1);
            assert(!is_blank(f.0[f.0.len() - 1]));
        }
        assert forall|i: int| 0 <= i < f.1.len() implies is_ws(#[trigger] f.1[i]) by {
            assert(full[concat_texts(f.0).len() + i] == f.1[i]);
        }
    } else {
        if is_blank(f.1) {
            if f.0.len() == 0 {
                assert(full =~= f.1);
            }
            assert(heading_sections(text, prefix) == f.0);
            assert(is_blank(f.1) && concat_texts(f.0) + f.1 == full);
        } else {
            assert(f.0.push(f.1).drop_last() =~= f.0);
            assert(heading_sections(text, prefix) == f.0.push(f.1));
            assert(concat_texts(f.0.push(f.1)) + Seq::<char>::empty() =~= full);
            assert(is_blank(Seq::<char>::empty()));
        }
    }
}

proof fn lemma_heading_fold_tail(ls: Seq<Seq<char>>, prefix: Seq<char>)
    requires
        !is_blank(prefix),
    ensures
        heading_fold(ls, prefix).0.len() > 0 ==> !is_blank(heading_fold(ls, prefix).1),
    decreases ls.len(),
{
    if ls.len() > 0 {
        let prev = heading_fold(ls.drop_last(), prefix);
        lemma_heading_fold_tail(ls.drop_last(), prefix);
        let l = ls.last();
        let f = heading_fold(ls, prefix);
        let p = choose|p: int| 0 <= p < prefix.len() && !is_ws(#[trigger] prefix[p]);
        if has_prefix(l, prefix) && !is_blank(prev.1) {
            assert(l.take(prefix.len() as int)[p] == prefix[p]);
            assert(f.1[p] == l[p]);
        } else if prev.0.len() > 0 {
            let q = choose|q: int| 0 <= q < prev.1.len() && !is_ws(#[trigger] prev.1[q]);
            assert(f.1[q] == prev.1[q]);
        }
    }
}

/// Splitting on a heading prefix that is not blank loses nothing: when the
/// text has a line that is not blank, the sections run together give back
/// exactly the text's lines, each ended by a newline, and no section is
/// blank.
pub proof fn lemma_sections_lose_nothing(text: Seq<char>, prefix: Seq<char>)
    requires
        !is_blank(prefix),
    ensures
        !is_blank(terminated_lines(lines_of(text))) ==> {
            &&& concat_texts(heading_sections(text, prefix)) == terminated_lines(lines_of(text))
            &&& forall|k: int|
                0 <= k < heading_sections(text, prefix).len() ==> !is_blank(
                    #[trigger] heading_sections(text, prefix)[k],
                )
        },
{
    let ls = lines_of(text);
    let f = heading_fold(ls, prefix);
    lemma_heading_fold_concat(ls, prefix);
    lemma_heading_fold_tail(ls, prefix);
    let full = terminated_lines(ls);
    if !is_blank(full) {
        if f.0.len() == 0 {
            assert(full =~= f.1);
        }
        assert(!is_blank(f.1));
        let secs = f.0.push(f.1);
        assert(secs.drop_last() =~= f.0);
        assert(heading_sections(text, prefix) == secs);
        assert forall|k: int| 0 <= k < secs.len() implies !is_blank(#[trigger] secs[k]) by {
            if k < f.0.len() {
                assert(secs[k] == f.0[k]);
            }
        }
    }
}

/// The chunks kept of a list of texts are those long enough to index, in
/// order, each carrying its position in the list and its text.
pub proof fn lemma_kept_chunks(texts: Seq<Seq<char>>, title: Seq<char>)
    ensures
        forall|k: int|
            0 <= k < kept_chunks(texts, title).len() ==> {
                let c = #[trigger] kept_chunks(texts, title)[k];
                &&& 0 <= c.chunk_index < texts.len()
                &&& c.content == texts[c.chunk_index]
                &&& long_enough(c.content)
                &&& c.title == title
            },
        forall|j: int, k: int|
            0 <= j < k < kept_chunks(texts, title).len() ==> (#[trigger] kept_chunks(texts, title)[
                j
            ]).chunk_index < (#[trigger] kept_chunks(texts, title)[k]).chunk_index,
    decreases texts.len(),
{
    if texts.len() > 0 {
        let t = texts.drop_last();
        lemma_kept_chunks(t, title);
        let rest = kept_chunks(t, title);
        let all = kept_chunks(texts, title);
        assert forall|k: int| 0 <= k < all.len() implies {
            let c = #[trigger] all[k];
            &&& 0 <= c.chunk_index < texts.len()
            &&& c.content == texts[c.chunk_index]
            &&& long_enough(c.content)
            &&& c.title == title
        } by {
            if k < rest.len() {
                assert(all[k] == rest[k]);
                assert(texts[rest[k].chunk_index] == t[rest[k].chunk_index]);
            }
        }
        assert forall|j: int, k: int| 0 <= j < k < all.len() implies (#[trigger] all[j]).chunk_index
            < (#[trigger] all[k]).chunk_index by {
            assert(all[j] == rest[j]);
            if k < rest.len() {
                assert(all[k] == rest[k]);
            }
        }
    }
}

} // verus!
