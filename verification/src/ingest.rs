//! Decisions of an indexing run over a repository: which files are unchanged
//! since the last run, how a changed source file is chunked, how chunks are
//! batched for embedding, and how indexed repositories are listed.
use vstd::prelude::*;

use crate::chunk::{
    chunk_views, make_chunks, make_lhs_chunks, max_end_line, spec_make_chunks,
    spec_make_lhs_chunks, symbol_views, Chunk, Symbol, CHUNK_LINES,
    lemma_make_chunks_numbered, lemma_make_lhs_chunks_numbered, SymbolSpec, MAX_CHUNKS_PER_FILE,
};
use crate::files::{
    detect_language, ext_lower, spec_detect_language, uses_lhs_chunker, uses_lhs_chunker_spec,
};
use crate::text::lines_of;

verus! {

/// What the store remembers of a file from an earlier run.
#[derive(Debug, Clone)]
pub struct StoredFile {
    /// Modification time, in nanoseconds since the epoch, when it was indexed.
    pub mtime_nanos: Option<i64>,
    /// Content hash of the text that was indexed.
    pub content_hash: String,
}

/// A file may be skipped without reading it: not a forced run, the file was
/// indexed before, and both modification times are known and equal.
pub open spec fn mtime_unchanged(force: bool, stored: Option<&StoredFile>, file_mtime: Option<i64>) -> bool {
    !force && match stored {
        Some(info) => match (info.mtime_nanos, file_mtime) {
            (Some(a), Some(b)) => a == b,
            _ => false,
        },
        None => false,
    }
}

/// A file that was read may be skipped: not a forced run, the file was
/// indexed before, and its text has the stored content hash.
pub open spec fn hash_unchanged(force: bool, stored: Option<&StoredFile>, file_hash: Seq<char>) -> bool {
    !force && match stored {
        Some(info) => info.content_hash@ == file_hash,
        None => false,
    }
}

/// Whether a file can be skipped without reading it: not a forced run, the
/// file was indexed before, and both modification times are known and equal.
pub fn unchanged_by_mtime(force: bool, stored: Option<&StoredFile>, file_mtime: Option<i64>) -> (r:
    bool)
    ensures
        r == mtime_unchanged(force, stored, file_mtime),
{
    if force {
        return false;
    }
    match stored {
        Some(info) => match (info.mtime_nanos, file_mtime) {
            (Some(a), Some(b)) => a == b,
            _ => false,
        },
        None => false,
    }
}

/// Whether a file that was read can still be skipped: not a forced run, the
/// file was indexed before, and its text has the stored content hash.
pub fn unchanged_by_hash(force: bool, stored: Option<&StoredFile>, file_hash: &str) -> (r: bool)
    ensures
        r == hash_unchanged(force, stored, file_hash@),
{
    if force {
        return false;
    }
    match stored {
        Some(info) => {
            let a = crate::text::chars_of(info.content_hash.as_str());
            let b = crate::text::chars_of(file_hash);
            crate::text::chars_eq(&a, &b)
        },
        None => false,
    }
}

/// The chunks of a changed source file named `file_name`: literate Haskell
/// goes through the `.lhs` chunker, everything else through the chunker of
/// the file's language.
pub open spec fn spec_code_chunks(name: Seq<char>, source: Seq<char>, syms: Seq<crate::chunk::SymbolSpec>) -> Seq<
    crate::chunk::ChunkSpec,
> {
    if uses_lhs_chunker_spec(name, ext_lower(name)) {
        spec_make_lhs_chunks(source, syms)
    } else {
        spec_make_chunks(source, spec_detect_language(name), syms)
    }
}

/// The chunks of the source file named `file_name` with text `source`;
/// `symbols` are those that the symbol extractor found in the text it was
/// given (the stripped code, for literate Haskell).
pub fn code_chunks_for(file_name: &str, source: &str, symbols: &[Symbol]) -> (r: Vec<Chunk>)
    requires
        lines_of(source@).len() < usize::MAX,
        symbols@.len() > 0 ==> max_end_line(symbol_views(symbols@)) + 2 * CHUNK_LINES
            <= usize::MAX,
    ensures
        chunk_views(r@) == spec_code_chunks(file_name@, source@, symbol_views(symbols@)),
{
    if uses_lhs_chunker(file_name) {
        make_lhs_chunks(source, symbols)
    } else {
        let lang = detect_language(file_name);
        make_chunks(source, lang.as_str(), symbols)
    }
}

/// A source file's chunks never exceed `MAX_CHUNKS_PER_FILE` and are
/// numbered 0, 1, 2, … with no gaps.
pub proof fn lemma_code_chunks_numbered(name: Seq<char>, source: Seq<char>, syms: Seq<SymbolSpec>)
    ensures
        spec_code_chunks(name, source, syms).len() <= MAX_CHUNKS_PER_FILE,
        forall|k: int|
            0 <= k < spec_code_chunks(name, source, syms).len() ==> (#[trigger] spec_code_chunks(
                name,
                source,
                syms,
            )[k]).index == k,
{
    if uses_lhs_chunker_spec(name, ext_lower(name)) {
        lemma_make_lhs_chunks_numbered(source, syms);
    } else {
        lemma_make_chunks_numbered(source, spec_detect_language(name), syms);
    }
}

// ── Embedding batches ─────────────────────────────────────────────────────────

/// Code chunks are embedded and stored this many at a time.
pub const CODE_EMBED_BATCH: usize = 16;

/// Documentation chunks are embedded and stored this many at a time.
pub const DOC_EMBED_BATCH: usize = 8;

/// The batches that a run of `items` fills, `cap` items each, and the items
/// left over after the last full batch.
pub open spec fn batch_run<T>(items: Seq<T>, cap: nat) -> (Seq<Seq<T>>, Seq<T>)
    decreases items.len(),
{
    if items.len() == 0 {
        (Seq::empty(), Seq::empty())
    } else {
        let prev = batch_run(items.drop_last(), cap);
        let pending = prev.1.push(items.last());
        if pending.len() >= cap {
            (prev.0.push(pending), Seq::empty())
        } else {
            (prev.0, pending)
        }
    }
}

/// Collects items into batches of a fixed size; each full batch is handed
/// back to be flushed, the last partial one when the run ends.
pub struct Batcher<T> {
    cap: usize,
    pending: Vec<T>,
}

impl<T> Batcher<T> {
    /// The batch size.
    pub closed spec fn capacity(&self) -> nat {
        self.cap as nat
    }

    /// The items waiting for the next flush.
    pub closed spec fn pending(&self) -> Seq<T> {
        self.pending@
    }

    /// The batch size is positive and fewer items than that are waiting.
    pub closed spec fn wf(&self) -> bool {
        self.cap >= 1 && self.pending@.len() < self.cap
    }

    /// A batcher of batches of `cap` items, with nothing waiting.
    pub fn new(cap: usize) -> (r: Self)
        requires
            cap >= 1,
        ensures
            r.wf(),
            r.capacity() == cap,
            r.pending() == Seq::<T>::empty(),
    {
        Batcher { cap, pending: Vec::new() }
    }

    /// Adds `item`; when that fills a batch, the batch is handed back and
    /// nothing is left waiting.
    pub fn push(&mut self, item: T) -> (r: Option<Vec<T>>)
        requires
            old(self).wf(),
        ensures
            final(self).wf(),
            final(self).capacity() == old(self).capacity(),
            old(self).pending().len() + 1 >= old(self).capacity() ==> (r matches Some(b) && b@
                == old(self).pending().push(item)) && final(self).pending() == Seq::<T>::empty(),
            old(self).pending().len() + 1 < old(self).capacity() ==> r is None
                && final(self).pending() == old(self).pending().push(item),
    {
        self.pending.push(item);
        if self.pending.len() >= self.cap {
            let mut full: Vec<T> = Vec::new();
            std::mem::swap(&mut full, &mut self.pending);
            Some(full)
        } else {
            None
        }
    }

    /// Ends the run: the items still waiting, possibly none.
    pub fn finish(self) -> (r: Vec<T>)
        ensures
            r@ == self.pending(),
    {
        self.pending
    }
}

/// The concatenation of batches.
pub open spec fn flatten_batches<T>(bs: Seq<Seq<T>>) -> Seq<T>
    decreases bs.len(),
{
    if bs.len() == 0 {
        Seq::empty()
    } else {
        flatten_batches(bs.drop_last()) + bs.last()
    }
}

/// Batching loses, duplicates and reorders nothing: the full batches, then
/// the left-over items, are the items in order; every full batch holds
/// exactly `cap` items and fewer than `cap` are left over.
pub proof fn lemma_batches_keep_order<T>(items: Seq<T>, cap: nat)
    requires
        cap >= 1,
    ensures
        flatten_batches(batch_run(items, cap).0) + batch_run(items, cap).1 == items,
        forall|k: int|
            0 <= k < batch_run(items, cap).0.len() ==> (#[trigger] batch_run(items, cap).0[k]).len()
                == cap,
        batch_run(items, cap).1.len() < cap,
    decreases items.len(),
{
    if items.len() > 0 {
        lemma_batches_keep_order(items.drop_last(), cap);
        let prev = batch_run(items.drop_last(), cap);
        let pending = prev.1.push(items.last());
        assert(items.drop_last().push(items.last()) =~= items);
        if pending.len() >= cap {
            let bs = prev.0.push(pending);
            assert(bs.drop_last() =~= prev.0);
            assert(flatten_batches(bs) + Seq::<T>::empty() =~= flatten_batches(prev.0) + prev.1.push(
                items.last(),
            ));
            assert forall|k: int| 0 <= k < bs.len() implies (#[trigger] bs[k]).len() == cap by {
                if k < prev.0.len() {
                    assert(bs[k] == prev.0[k]);
                }
            }
        } else {
            assert(flatten_batches(prev.0) + pending =~= flatten_batches(prev.0) + prev.1 + seq![
                items.last(),
            ]);
        }
    }
}

/// Pushing the items one by one hands back exactly the batches of
/// [`batch_run`] and leaves its left-over items waiting.
pub proof fn lemma_batcher_step<T>(items: Seq<T>, item: T, cap: nat)
    requires
        cap >= 1,
    ensures
        batch_run(items.push(item), cap) == (if batch_run(items, cap).1.len() + 1 >= cap {
            (batch_run(items, cap).0.push(batch_run(items, cap).1.push(item)), Seq::<T>::empty())
        } else {
            (batch_run(items, cap).0, batch_run(items, cap).1.push(item))
        }),
{
    assert(items.push(item).drop_last() =~= items);
}


// ── Listing indexed repositories ──────────────────────────────────────────────

/// `s` padded with spaces on the right to `width` characters
/// (`format!("{:<width$}", s)`); a longer `s` is left as it is.
pub open spec fn pad_right(s: Seq<char>, width: nat) -> Seq<char> {
    if s.len() >= width {
        s
    } else {
        s + Seq::new((width - s.len()) as nat, |i: int| ' ')
    }
}

/// A line of the repository listing: path, kind and package in columns of
/// 55, 10 and 20 characters, then the version; an absent package or
/// version shows as `-`.
pub open spec fn repo_row_spec(
    repo_path: Seq<char>,
    kind: Seq<char>,
    package: Option<Seq<char>>,
    version: Option<Seq<char>>,
) -> Seq<char> {
    pad_right(repo_path, 55) + " "@ + pad_right(kind, 10) + " "@ + pad_right(
        match package {
            Some(p) => p,
            None => "-"@,
        },
        20,
    ) + " "@ + match version {
        Some(v) => v,
        None => "-"@,
    }
}

fn push_padded(out: &mut Vec<char>, s: &str, width: usize)
    ensures
        final(out)@ == old(out)@ + pad_right(s@, width as nat),
{
    let v = crate::text::chars_of(s);
    let ghost before = out@;
    crate::text::extend_chars(out, &v);
    let mut n: usize = v.len();
    while n < width
        invariant
            v@ == s@,
            v.len() <= n <= width || (n == v.len() && n >= width),
            out@ == before + s@ + Seq::new((n - v.len()) as nat, |i: int| ' '),
        decreases width - n,
    {
        out.push(' ');
        assert(out@ =~= before + s@ + Seq::new((n + 1 - v.len()) as nat, |i: int| ' '));
        n = n + 1;
    }
    if v.len() >= width {
        assert(out@ =~= before + s@);
    } else {
        assert(out@ =~= before + pad_right(s@, width as nat));
    }
}

/// A line of the repository listing (see [`repo_row_spec`]).
pub fn repo_row(repo_path: &str, kind: &str, package: Option<&str>, version: Option<&str>) -> (r: String)
    ensures
        r@ == repo_row_spec(
            repo_path@,
            kind@,
            match package {
                Some(p) => Some(p@),
                None => None,
            },
            match version {
                Some(v) => Some(v@),
                None => None,
            },
        ),
{
    let mut out: Vec<char> = Vec::new();
    push_padded(&mut out, repo_path, 55);
    out.push(' ');
    push_padded(&mut out, kind, 10);
    out.push(' ');
    let p = match package {
        Some(p) => p,
        None => "-",
    };
    push_padded(&mut out, p, 20);
    out.push(' ');
    let v = match version {
        Some(v) => v,
        None => "-",
    };
    let vv = crate::text::chars_of(v);
    crate::text::extend_chars(&mut out, &vv);
    proof {
        reveal_strlit(" ");
    }
    assert(out@ =~= repo_row_spec(
        repo_path@,
        kind@,
        match package {
            Some(p) => Some(p@),
            None => None,
        },
        match version {
            Some(v) => Some(v@),
            None => None,
        },
    ));
    crate::text::string_of(&out)
}

/// The header of the repository listing: the column names in the columns
/// of [`repo_row_spec`].
pub fn repo_table_header() -> (r: String)
    ensures
        r@ == repo_row_spec("repo_path"@, "kind"@, Some("package"@), Some("version"@)),
{
    repo_row("repo_path", "kind", Some("package"), Some("version"))
}

} // verus!
