//! Character-level text model shared by the parsers and chunkers.
//!
//! Text is modelled as `Seq<char>` (the view of `str` and `String`). The
//! functions here give exact specifications to the handful of `str`
//! operations the library relies on: line splitting, joining, trimming,
//! prefix tests and UTF-8 byte lengths.
use vstd::prelude::*;

verus! {

broadcast use vstd::string::group_string_axioms;

// ── Conversions between `str`/`String` and `Vec<char>` ──────────────────────

/// Copies the characters of `s` into a vector.
pub fn chars_of(s: &str) -> (v: Vec<char>)
    ensures
        v@ == s@,
{
    let mut v: Vec<char> = Vec::new();
    for c in it: s.chars()
        invariant
            v@ == it.seq().take(it.index() as int),
    {
        v.push(c);
    }
    v
}

/// Appends one character to a `String` (`String::push`).
#[verifier::external_body]
pub(crate) fn push_char(s: &mut String, c: char)
    ensures
        final(s)@ == old(s)@.push(c),
{
    s.push(c);
}

/// `str::to_lowercase`: the Unicode lowercase mapping of a text.
pub uninterp spec fn lowercase(s: Seq<char>) -> Seq<char>;

/// Calls `str::to_lowercase`. The result is named [`lowercase`] of the
/// argument's characters; the case tables behind it are not restated here.
#[verifier::external_body]
pub(crate) fn to_lowercase(s: &str) -> (r: String)
    ensures
        r@ == lowercase(s@),
{
    s.to_lowercase()
}

/// Appends the characters of `s` to `out`.
pub fn extend_chars(out: &mut Vec<char>, s: &Vec<char>)
    ensures
        final(out)@ == old(out)@ + s@,
{
    let ghost start = out@;
    let mut i: usize = 0;
    while i < s.len()
        invariant
            i <= s.len(),
            out@ == start + s@.take(i as int),
        decreases s.len() - i,
    {
        out.push(s[i]);
        i = i + 1;
        assert(out@ =~= start + s@.take(i as int));
    }
    assert(s@.take(i as int) =~= s@);
}

/// Copies `v[a..b]`.
pub fn copy_range(v: &Vec<char>, a: usize, b: usize) -> (r: Vec<char>)
    requires
        a <= b <= v.len(),
    ensures
        r@ == v@.subrange(a as int, b as int),
{
    let mut r: Vec<char> = Vec::new();
    let mut k: usize = a;
    while k < b
        invariant
            a <= k <= b <= v.len(),
            r@ == v@.subrange(a as int, k as int),
        decreases b - k,
    {
        r.push(v[k]);
        k = k + 1;
        assert(r@ =~= v@.subrange(a as int, k as int));
    }
    r
}

/// Builds a `String` holding exactly the characters of `v`.
pub fn string_of(v: &Vec<char>) -> (s: String)
    ensures
        s@ == v@,
{
    let mut s = String::new();
    let mut i: usize = 0;
    while i < v.len()
        invariant
            i <= v.len(),
            s@ == v@.take(i as int),
        decreases v.len() - i,
    {
        push_char(&mut s, v[i]);
        i = i + 1;
        assert(s@ =~= v@.take(i as int));
    }
    assert(v@.take(i as int) =~= v@);
    s
}

/// Builds a `String` holding the characters of `v` from `a` up to `b`.
pub fn string_of_range(v: &Vec<char>, a: usize, b: usize) -> (s: String)
    requires
        a <= b <= v.len(),
    ensures
        s@ == v@.subrange(a as int, b as int),
{
    let mut s = String::new();
    let mut i: usize = a;
    while i < b
        invariant
            a <= i <= b <= v.len(),
            s@ == v@.subrange(a as int, i as int),
        decreases b - i,
    {
        push_char(&mut s, v[i]);
        i = i + 1;
        assert(s@ =~= v@.subrange(a as int, i as int));
    }
    s
}

/// Views of a sequence of character vectors.
pub open spec fn views(v: Seq<Vec<char>>) -> Seq<Seq<char>> {
    Seq::new(v.len(), |i: int| v[i]@)
}

/// Views of a sequence of strings.
pub open spec fn string_views(v: Seq<String>) -> Seq<Seq<char>> {
    Seq::new(v.len(), |i: int| v[i]@)
}

/// Views commute with pushing.
pub proof fn lemma_string_views_push(v: Seq<String>, x: String)
    ensures
        string_views(v.push(x)) == string_views(v).push(x@),
{
    assert(string_views(v.push(x)) =~= string_views(v).push(x@));
}

/// Views commute with pushing.
pub proof fn lemma_views_push(v: Seq<Vec<char>>, x: Vec<char>)
    ensures
        views(v.push(x)) == views(v).push(x@),
{
    assert(views(v.push(x)) =~= views(v).push(x@));
}

/// Vector equality on characters.
pub fn chars_eq(a: &Vec<char>, b: &Vec<char>) -> (r: bool)
    ensures
        r == (a@ == b@),
{
    if a.len() != b.len() {
        return false;
    }
    let mut i: usize = 0;
    while i < a.len()
        invariant
            a.len() == b.len(),
            i <= a.len(),
            forall|j: int| 0 <= j < i ==> a@[j] == b@[j],
        decreases a.len() - i,
    {
        if a[i] != b[i] {
            return false;
        }
        i = i + 1;
    }
    assert(a@ =~= b@);
    true
}

// ── Prefixes and suffixes ────────────────────────────────────────────────────

/// `v` holds exactly the characters of `lit`.
pub fn is_text(v: &Vec<char>, lit: &str) -> (r: bool)
    ensures
        r == (v@ == lit@),
{
    let l = chars_of(lit);
    chars_eq(v, &l)
}

/// `lit` is a suffix of `v`.
pub fn ends_with_text(v: &Vec<char>, lit: &str) -> (r: bool)
    ensures
        r == has_suffix(v@, lit@),
{
    let l = chars_of(lit);
    ends_with(v, &l)
}

/// `lit` occurs in `v`.
pub fn contains_text(v: &Vec<char>, lit: &str) -> (r: bool)
    ensures
        r == has_infix(v@, lit@),
{
    let l = chars_of(lit);
    contains(v, &l)
}

/// `p` is a prefix of `s` (`str::starts_with`).
pub open spec fn has_prefix(s: Seq<char>, p: Seq<char>) -> bool {
    p.len() <= s.len() && s.take(p.len() as int) == p
}

/// `p` is a suffix of `s` (`str::ends_with`).
pub open spec fn has_suffix(s: Seq<char>, p: Seq<char>) -> bool {
    p.len() <= s.len() && s.skip(s.len() - p.len()) == p
}

/// `p` occurs somewhere in `s` (`str::contains`).
pub open spec fn has_infix(s: Seq<char>, p: Seq<char>) -> bool {
    exists|i: int| 0 <= i <= s.len() - p.len() && #[trigger] s.subrange(i, i + p.len()) == p
}

/// `p` is a prefix of `s`.
pub fn starts_with(s: &Vec<char>, p: &Vec<char>) -> (r: bool)
    ensures
        r == has_prefix(s@, p@),
{
    if p.len() > s.len() {
        return false;
    }
    let mut i: usize = 0;
    while i < p.len()
        invariant
            p.len() <= s.len(),
            i <= p.len(),
            forall|j: int| 0 <= j < i ==> s@[j] == p@[j],
        decreases p.len() - i,
    {
        if s[i] != p[i] {
            assert(s@.take(p.len() as int)[i as int] != p@[i as int]);
            return false;
        }
        i = i + 1;
    }
    assert(s@.take(p.len() as int) =~= p@);
    true
}

/// `p` is a suffix of `s`.
pub fn ends_with(s: &Vec<char>, p: &Vec<char>) -> (r: bool)
    ensures
        r == has_suffix(s@, p@),
{
    if p.len() > s.len() {
        return false;
    }
    let off = s.len() - p.len();
    let mut i: usize = 0;
    while i < p.len()
        invariant
            p.len() <= s.len(),
            off == s.len() - p.len(),
            i <= p.len(),
            forall|j: int| 0 <= j < i ==> s@[off + j] == p@[j],
        decreases p.len() - i,
    {
        if s[off + i] != p[i] {
            assert(s@.skip(off as int)[i as int] != p@[i as int]);
            return false;
        }
        i = i + 1;
    }
    assert(s@.skip(off as int) =~= p@);
    true
}

/// `p` occurs in `s` starting at position `i`.
pub fn occurs_at(s: &Vec<char>, p: &Vec<char>, i: usize) -> (r: bool)
    requires
        i <= s.len(),
    ensures
        r == (i + p.len() <= s.len() && s@.subrange(i as int, i + p.len()) == p@),
{
    if p.len() > s.len() - i {
        return false;
    }
    let mut k: usize = 0;
    while k < p.len()
        invariant
            i + p.len() <= s.len(),
            k <= p.len(),
            forall|j: int| 0 <= j < k ==> s@[i + j] == p@[j],
        decreases p.len() - k,
    {
        if s[i + k] != p[k] {
            assert(s@.subrange(i as int, i + p.len())[k as int] != p@[k as int]);
            return false;
        }
        k = k + 1;
    }
    assert(s@.subrange(i as int, i + p.len()) =~= p@);
    true
}

/// `p` occurs in `s`.
pub fn contains(s: &Vec<char>, p: &Vec<char>) -> (r: bool)
    ensures
        r == has_infix(s@, p@),
{
    if p.len() > s.len() {
        return false;
    }
    let mut i: usize = 0;
    while i <= s.len() - p.len()
        invariant
            p.len() <= s.len(),
            i <= s.len() - p.len() + 1,
            forall|j: int| 0 <= j < i ==> #[trigger] s@.subrange(j, j + p.len()) != p@,
        decreases s.len() - p.len() + 1 - i,
    {
        if occurs_at(s, p, i) {
            return true;
        }
        if i == s.len() - p.len() {
            return false;
        }
        i = i + 1;
    }
    false
}

// ── Lines (`str::lines`) ─────────────────────────────────────────────────────

/// Position of the first `'\n'` at or after `i`, or `s.len()` when there is none.
pub open spec fn next_nl(s: Seq<char>, i: int) -> int
    decreases s.len() - i,
{
    if i >= s.len() {
        s.len() as int
    } else if s[i] == '\n' {
        i
    } else {
        next_nl(s, i + 1)
    }
}

/// Bounds and meaning of [`next_nl`].
pub proof fn lemma_next_nl_bounds(s: Seq<char>, i: int)
    requires
        0 <= i <= s.len(),
    ensures
        i <= next_nl(s, i) <= s.len(),
        next_nl(s, i) < s.len() ==> s[next_nl(s, i)] == '\n',
        forall|j: int| i <= j < next_nl(s, i) ==> s[j] != '\n',
    decreases s.len() - i,
{
    if i < s.len() && s[i] != '\n' {
        lemma_next_nl_bounds(s, i + 1);
    }
}

/// When no `'\n'` lies in `[a, b)`, the search from `a` and from `b` agree.
pub proof fn lemma_next_nl_skip(s: Seq<char>, a: int, b: int)
    requires
        0 <= a <= b <= s.len(),
        forall|j: int| a <= j < b ==> s[j] != '\n',
    ensures
        next_nl(s, a) == next_nl(s, b),
    decreases b - a,
{
    if a < b {
        lemma_next_nl_skip(s, a + 1, b);
    }
}

/// A line ending `"\r\n"` loses its `'\r'` too.
pub open spec fn strip_cr(l: Seq<char>) -> Seq<char> {
    if l.len() > 0 && l.last() == '\r' {
        l.drop_last()
    } else {
        l
    }
}

/// The lines of `s` from position `i` on, as `str::lines` yields them: split at
/// `'\n'`, a `'\r'` before the `'\n'` dropped, and no empty line after a final
/// `'\n'`.
pub open spec fn lines_from(s: Seq<char>, i: int) -> Seq<Seq<char>>
    decreases s.len() - i,
{
    if i < 0 || i >= s.len() {
        Seq::empty()
    } else {
        let k = next_nl(s, i);
        if k < s.len() {
            proof {
                lemma_next_nl_bounds(s, i);
            }
            seq![strip_cr(s.subrange(i, k))] + lines_from(s, k + 1)
        } else {
            seq![s.subrange(i, s.len() as int)]
        }
    }
}

/// The lines of `s` (`str::lines`).
pub open spec fn lines_of(s: Seq<char>) -> Seq<Seq<char>> {
    lines_from(s, 0)
}

/// Splits `s` into its lines (`str::lines`).
pub fn split_lines(s: &Vec<char>) -> (r: Vec<Vec<char>>)
    ensures
        views(r@) == lines_of(s@),
{
    let mut out: Vec<Vec<char>> = Vec::new();
    let mut start: usize = 0;
    let mut i: usize = 0;
    while i < s.len()
        invariant
            start <= i <= s.len(),
            views(out@) + lines_from(s@, start as int) == lines_of(s@),
            forall|j: int| start <= j < i ==> s@[j] != '\n',
        decreases s.len() - i,
    {
        if s[i] == '\n' {
            proof {
                lemma_next_nl_skip(s@, start as int, i as int);
            }
            let mut end = i;
            if end > start && s[end - 1] == '\r' {
                end = end - 1;
            }
            let mut line: Vec<char> = Vec::new();
            let mut k: usize = start;
            while k < end
                invariant
                    start <= k <= end <= s.len(),
                    line@ == s@.subrange(start as int, k as int),
                decreases end - k,
            {
                line.push(s[k]);
                k = k + 1;
                assert(line@ =~= s@.subrange(start as int, k as int));
            }
            proof {
                assert(line@ == strip_cr(s@.subrange(start as int, i as int))) by {
                    if i > start && s@[i - 1] == '\r' {
                        assert(s@.subrange(start as int, i as int).drop_last() =~= s@.subrange(
                            start as int,
                            i - 1,
                        ));
                    }
                }
                lemma_views_push(out@, line);
                assert(views(out@.push(line)) + lines_from(s@, i + 1) =~= views(out@) + lines_from(
                    s@,
                    start as int,
                ));
            }
            out.push(line);
            start = i + 1;
        }
        i = i + 1;
    }
    if start < s.len() {
        proof {
            lemma_next_nl_skip(s@, start as int, s.len() as int);
        }
        let mut line: Vec<char> = Vec::new();
        let mut k: usize = start;
        while k < s.len()
            invariant
                start <= k <= s.len(),
                line@ == s@.subrange(start as int, k as int),
            decreases s.len() - k,
        {
            line.push(s[k]);
            k = k + 1;
            assert(line@ =~= s@.subrange(start as int, k as int));
        }
        proof {
            lemma_views_push(out@, line);
            assert(views(out@.push(line)) =~= views(out@) + lines_from(s@, start as int));
        }
        out.push(line);
    } else {
        assert(views(out@) =~= views(out@) + lines_from(s@, start as int));
    }
    out
}

/// `x` holds no `'\n'`.
pub open spec fn no_nl(x: Seq<char>) -> bool {
    forall|j: int| 0 <= j < x.len() ==> #[trigger] x[j] != '\n'
}

/// No line of `s` holds a `'\n'`.
pub proof fn lemma_lines_no_nl(s: Seq<char>, i: int)
    ensures
        forall|k: int| 0 <= k < lines_from(s, i).len() ==> no_nl(#[trigger] lines_from(s, i)[k]),
    decreases s.len() - i,
{
    if 0 <= i < s.len() {
        lemma_next_nl_bounds(s, i);
        let k = next_nl(s, i);
        if k < s.len() {
            lemma_lines_no_nl(s, k + 1);
            let ls = lines_from(s, i);
            assert forall|m: int| 0 <= m < ls.len() implies no_nl(#[trigger] ls[m]) by {
                if m > 0 {
                    assert(ls[m] == lines_from(s, k + 1)[m - 1]);
                } else {
                    let l = s.subrange(i, k);
                    assert(no_nl(l));
                    assert(no_nl(strip_cr(l)));
                }
            }
        } else {
            assert(no_nl(s.subrange(i, s.len() as int)));
        }
    }
}

/// Number of `'\n'` in `s`.
pub open spec fn nl_count(s: Seq<char>) -> nat
    decreases s.len(),
{
    if s.len() == 0 {
        0
    } else {
        nl_count(s.drop_last()) + if s.last() == '\n' {
            1nat
        } else {
            0nat
        }
    }
}

/// Newline counts add up over concatenation.
pub proof fn lemma_nl_count_concat(a: Seq<char>, b: Seq<char>)
    ensures
        nl_count(a + b) == nl_count(a) + nl_count(b),
    decreases b.len(),
{
    if b.len() > 0 {
        assert((a + b).drop_last() =~= a + b.drop_last());
        lemma_nl_count_concat(a, b.drop_last());
    } else {
        assert(a + b =~= a);
    }
}

/// A text without newlines counts none.
pub proof fn lemma_nl_count_zero(x: Seq<char>)
    requires
        no_nl(x),
    ensures
        nl_count(x) == 0,
    decreases x.len(),
{
    if x.len() > 0 {
        assert(no_nl(x.drop_last()));
        lemma_nl_count_zero(x.drop_last());
    }
}

proof fn lemma_nl_one()
    ensures
        nl_count(seq!['\n']) == 1,
{
    assert(seq!['\n'].drop_last() =~= Seq::<char>::empty());
    assert(nl_count(Seq::<char>::empty()) == 0);
}

/// Joining `n >= 1` newline-free lines puts `n - 1` newlines in the text.
pub proof fn lemma_join_nl_count(xs: Seq<Seq<char>>)
    requires
        xs.len() >= 1,
        forall|k: int| 0 <= k < xs.len() ==> no_nl(#[trigger] xs[k]),
    ensures
        nl_count(join_nl(xs)) == xs.len() - 1,
    decreases xs.len(),
{
    if xs.len() == 1 {
        lemma_nl_count_zero(xs[0]);
    } else {
        let a = join_nl(xs.drop_last());
        assert forall|k: int| 0 <= k < xs.drop_last().len() implies no_nl(
            #[trigger] xs.drop_last()[k],
        ) by {
            assert(xs.drop_last()[k] == xs[k]);
        }
        lemma_join_nl_count(xs.drop_last());
        lemma_nl_count_concat(a + seq!['\n'], xs.last());
        lemma_nl_count_concat(a, seq!['\n']);
        lemma_nl_one();
        lemma_nl_count_zero(xs.last());
    }
}

/// A text has at most one line more than it has newlines.
pub proof fn lemma_lines_from_len(s: Seq<char>, i: int)
    requires
        0 <= i <= s.len(),
    ensures
        lines_from(s, i).len() <= nl_count(s.subrange(i, s.len() as int)) + 1,
    decreases s.len() - i,
{
    if i < s.len() {
        lemma_next_nl_bounds(s, i);
        let k = next_nl(s, i);
        if k < s.len() {
            lemma_lines_from_len(s, k + 1);
            let a = s.subrange(i, k);
            assert(no_nl(a));
            lemma_nl_count_zero(a);
            assert(s.subrange(i, s.len() as int) =~= a + seq!['\n'] + s.subrange(
                k + 1,
                s.len() as int,
            ));
            lemma_nl_count_concat(a + seq!['\n'], s.subrange(k + 1, s.len() as int));
            lemma_nl_count_concat(a, seq!['\n']);
            lemma_nl_one();
        }
    }
}

/// Splitting the join of `n >= 1` newline-free lines gives at most `n` lines.
pub proof fn lemma_lines_of_join_len(xs: Seq<Seq<char>>)
    requires
        xs.len() >= 1,
        forall|k: int| 0 <= k < xs.len() ==> no_nl(#[trigger] xs[k]),
    ensures
        lines_of(join_nl(xs)).len() <= xs.len(),
{
    let s = join_nl(xs);
    lemma_lines_from_len(s, 0);
    assert(s.subrange(0, s.len() as int) =~= s);
    lemma_join_nl_count(xs);
}

// ── Joining lines ────────────────────────────────────────────────────────────

/// The lines `ls` joined with `'\n'` between consecutive lines (`[..].join("\n")`).
pub open spec fn join_nl(ls: Seq<Seq<char>>) -> Seq<char>
    decreases ls.len(),
{
    if ls.len() == 0 {
        Seq::empty()
    } else if ls.len() == 1 {
        ls[0]
    } else {
        join_nl(ls.drop_last()) + seq!['\n'] + ls.last()
    }
}

/// Joins `lines[a..b]` with `'\n'`.
pub fn join_range(lines: &Vec<Vec<char>>, a: usize, b: usize) -> (r: Vec<char>)
    requires
        a <= b <= lines.len(),
    ensures
        r@ == join_nl(views(lines@).subrange(a as int, b as int)),
{
    let mut out: Vec<char> = Vec::new();
    let mut i: usize = a;
    assert(views(lines@).subrange(a as int, a as int) =~= Seq::<Seq<char>>::empty());
    while i < b
        invariant
            a <= i <= b <= lines.len(),
            out@ == join_nl(views(lines@).subrange(a as int, i as int)),
        decreases b - i,
    {
        let ghost before = out@;
        if i > a {
            out.push('\n');
        }
        let line = &lines[i];
        let mut k: usize = 0;
        let ghost mid = out@;
        while k < line.len()
            invariant
                k <= line.len(),
                out@ == mid + line@.take(k as int),
            decreases line.len() - k,
        {
            out.push(line[k]);
            k = k + 1;
            assert(out@ =~= mid + line@.take(k as int));
        }
        proof {
            let sub = views(lines@).subrange(a as int, i + 1);
            assert(sub.drop_last() =~= views(lines@).subrange(a as int, i as int));
            assert(line@.take(k as int) =~= line@);
            if i > a {
                assert(out@ =~= join_nl(sub));
            } else {
                assert(out@ =~= join_nl(sub));
            }
        }
        i = i + 1;
    }
    out
}

/// Each line with its first `d` characters removed.
pub open spec fn drop_each(ls: Seq<Seq<char>>, d: int) -> Seq<Seq<char>> {
    ls.map_values(|l: Seq<char>| l.skip(d))
}

/// Joins `lines[a..b]`, each with its first `d` characters removed, with `'\n'`.
pub fn join_range_drop(lines: &Vec<Vec<char>>, a: usize, b: usize, d: usize) -> (r: Vec<char>)
    requires
        a <= b <= lines.len(),
        forall|j: int| a <= j < b ==> d <= (#[trigger] lines@[j])@.len(),
    ensures
        r@ == join_nl(drop_each(views(lines@).subrange(a as int, b as int), d as int)),
{
    let mut out: Vec<char> = Vec::new();
    let mut i: usize = a;
    assert(drop_each(views(lines@).subrange(a as int, a as int), d as int) =~= Seq::<
        Seq<char>,
    >::empty());
    while i < b
        invariant
            a <= i <= b <= lines.len(),
            forall|j: int| a <= j < b ==> d <= (#[trigger] lines@[j])@.len(),
            out@ == join_nl(drop_each(views(lines@).subrange(a as int, i as int), d as int)),
        decreases b - i,
    {
        if i > a {
            out.push('\n');
        }
        let line = &lines[i];
        let mut k: usize = d;
        let ghost mid = out@;
        assert(line@.subrange(d as int, d as int) =~= Seq::<char>::empty());
        while k < line.len()
            invariant
                d <= k <= line.len(),
                out@ == mid + line@.subrange(d as int, k as int),
            decreases line.len() - k,
        {
            out.push(line[k]);
            k = k + 1;
            assert(out@ =~= mid + line@.subrange(d as int, k as int));
        }
        proof {
            let sub = views(lines@).subrange(a as int, i + 1);
            assert(drop_each(sub, d as int).drop_last() =~= drop_each(
                views(lines@).subrange(a as int, i as int),
                d as int,
            ));
            assert(line@.subrange(d as int, k as int) =~= line@.skip(d as int));
            assert(drop_each(sub, d as int).last() == line@.skip(d as int));
            assert(out@ =~= join_nl(drop_each(sub, d as int)));
        }
        i = i + 1;
    }
    out
}

/// Joins `lines[a..b]` with `'\n'` into a `String`.
pub fn join_range_string(lines: &Vec<Vec<char>>, a: usize, b: usize) -> (r: String)
    requires
        a <= b <= lines.len(),
    ensures
        r@ == join_nl(views(lines@).subrange(a as int, b as int)),
{
    let v = join_range(lines, a, b);
    string_of(&v)
}

// ── Whitespace and trimming ──────────────────────────────────────────────────

/// Unicode `White_Space` (`char::is_whitespace`).
pub open spec fn is_ws(c: char) -> bool {
    let u = c as u32;
    ||| 0x09 <= u <= 0x0D
    ||| u == 0x20
    ||| u == 0x85
    ||| u == 0xA0
    ||| u == 0x1680
    ||| 0x2000 <= u <= 0x200A
    ||| u == 0x2028
    ||| u == 0x2029
    ||| u == 0x202F
    ||| u == 0x205F
    ||| u == 0x3000
}

/// `char::is_whitespace`.
pub fn is_whitespace(c: char) -> (r: bool)
    ensures
        r == is_ws(c),
{
    let u = c as u32;
    (0x09 <= u && u <= 0x0D) || u == 0x20 || u == 0x85 || u == 0xA0 || u == 0x1680 || (0x2000
        <= u && u <= 0x200A) || u == 0x2028 || u == 0x2029 || u == 0x202F || u == 0x205F || u
        == 0x3000
}

/// Every character of `s` is whitespace (`s.trim().is_empty()`).
pub open spec fn is_blank(s: Seq<char>) -> bool {
    forall|i: int| 0 <= i < s.len() ==> is_ws(#[trigger] s[i])
}

/// Number of leading whitespace characters of `s`.
pub open spec fn lead_ws(s: Seq<char>) -> nat
    decreases s.len(),
{
    if s.len() > 0 && is_ws(s[0]) {
        1 + lead_ws(s.drop_first())
    } else {
        0
    }
}

/// Number of trailing whitespace characters of `s`.
pub open spec fn trail_ws(s: Seq<char>) -> nat
    decreases s.len(),
{
    if s.len() > 0 && is_ws(s.last()) {
        1 + trail_ws(s.drop_last())
    } else {
        0
    }
}

/// `str::trim_start`.
pub open spec fn trim_start(s: Seq<char>) -> Seq<char> {
    s.skip(lead_ws(s) as int)
}

/// `str::trim_end`.
pub open spec fn trim_end(s: Seq<char>) -> Seq<char> {
    s.take(s.len() - trail_ws(s))
}

/// `str::trim`.
pub open spec fn trim(s: Seq<char>) -> Seq<char> {
    trim_end(trim_start(s))
}

/// Meaning of [`lead_ws`].
pub proof fn lemma_lead_ws(s: Seq<char>)
    ensures
        lead_ws(s) <= s.len(),
        forall|j: int| 0 <= j < lead_ws(s) ==> is_ws(#[trigger] s[j]),
        lead_ws(s) < s.len() ==> !is_ws(s[lead_ws(s) as int]),
    decreases s.len(),
{
    if s.len() > 0 && is_ws(s[0]) {
        lemma_lead_ws(s.drop_first());
        assert forall|j: int| 0 <= j < lead_ws(s) implies is_ws(#[trigger] s[j]) by {
            if j > 0 {
                assert(s[j] == s.drop_first()[j - 1]);
            }
        }
    }
}

/// Meaning of [`trail_ws`].
pub proof fn lemma_trail_ws(s: Seq<char>)
    ensures
        trail_ws(s) <= s.len(),
        forall|j: int| s.len() - trail_ws(s) <= j < s.len() ==> is_ws(#[trigger] s[j]),
        trail_ws(s) < s.len() ==> !is_ws(s[s.len() - trail_ws(s) - 1]),
    decreases s.len(),
{
    if s.len() > 0 && is_ws(s.last()) {
        lemma_trail_ws(s.drop_last());
        assert forall|j: int| s.len() - trail_ws(s) <= j < s.len() implies is_ws(#[trigger] s[j]) by {
            if j < s.len() - 1 {
                assert(s[j] == s.drop_last()[j]);
            }
        }
    }
}

/// The leading-whitespace count is the first non-whitespace position.
pub proof fn lemma_lead_ws_char(s: Seq<char>, k: int)
    requires
        0 <= k <= s.len(),
        forall|j: int| 0 <= j < k ==> is_ws(#[trigger] s[j]),
        k < s.len() ==> !is_ws(s[k]),
    ensures
        lead_ws(s) == k,
    decreases k,
{
    if k > 0 {
        assert forall|j: int| 0 <= j < k - 1 implies is_ws(#[trigger] s.drop_first()[j]) by {
            assert(s.drop_first()[j] == s[j + 1]);
        }
        if k - 1 < s.drop_first().len() {
            assert(s.drop_first()[k - 1] == s[k]);
        }
        lemma_lead_ws_char(s.drop_first(), k - 1);
    }
}

/// The trailing-whitespace count is the distance from the last non-whitespace position.
pub proof fn lemma_trail_ws_char(s: Seq<char>, k: int)
    requires
        0 <= k <= s.len(),
        forall|j: int| k <= j < s.len() ==> is_ws(#[trigger] s[j]),
        k > 0 ==> !is_ws(s[k - 1]),
    ensures
        trail_ws(s) == s.len() - k,
    decreases s.len() - k,
{
    if k < s.len() {
        assert forall|j: int| k <= j < s.drop_last().len() implies is_ws(#[trigger] s.drop_last()[j]) by {
            assert(s.drop_last()[j] == s[j]);
        }
        if k > 0 {
            assert(s.drop_last()[k - 1] == s[k - 1]);
        }
        lemma_trail_ws_char(s.drop_last(), k);
    }
}

/// The trimmed text is empty exactly when the text is blank.
pub proof fn lemma_trim_empty(s: Seq<char>)
    ensures
        trim(s).len() == 0 <==> is_blank(s),
{
    lemma_lead_ws(s);
    let t = trim_start(s);
    lemma_trail_ws(t);
    if is_blank(s) {
        if lead_ws(s) < s.len() {
            assert(is_ws(s[lead_ws(s) as int]));
        }
    }
    if trim(s).len() == 0 {
        assert forall|i: int| 0 <= i < s.len() implies is_ws(#[trigger] s[i]) by {
            if i >= lead_ws(s) {
                assert(s[i] == t[i - lead_ws(s)]);
            }
        }
    }
}

/// Bounds `[a, b)` of `trim(v)` inside `v`.
pub fn trim_bounds(v: &Vec<char>) -> (r: (usize, usize))
    ensures
        r.0 <= r.1 <= v.len(),
        v@.subrange(r.0 as int, r.1 as int) == trim(v@),
        r.0 == lead_ws(v@),
{
    let mut a: usize = 0;
    while a < v.len() && is_whitespace(v[a])
        invariant
            a <= v.len(),
            forall|j: int| 0 <= j < a ==> is_ws(#[trigger] v@[j]),
        decreases v.len() - a,
    {
        a = a + 1;
    }
    proof {
        lemma_lead_ws_char(v@, a as int);
    }
    let mut b: usize = v.len();
    while b > a && is_whitespace(v[b - 1])
        invariant
            a <= b <= v.len(),
            forall|j: int| b <= j < v.len() ==> is_ws(#[trigger] v@[j]),
        decreases b - a,
    {
        b = b - 1;
    }
    proof {
        let t = trim_start(v@);
        assert(t =~= v@.skip(a as int));
        assert forall|j: int| b - a <= j < t.len() implies is_ws(#[trigger] t[j]) by {
            assert(t[j] == v@[a + j]);
        }
        if b > a {
            assert(t[b - a - 1] == v@[b - 1]);
        }
        lemma_trail_ws_char(t, b - a);
        assert(trim(v@) =~= v@.subrange(a as int, b as int));
    }
    (a, b)
}

/// Length of `trim_end(v)`.
pub fn trim_end_len(v: &Vec<char>) -> (k: usize)
    ensures
        k <= v.len(),
        v@.take(k as int) == trim_end(v@),
{
    let mut b: usize = v.len();
    while b > 0 && is_whitespace(v[b - 1])
        invariant
            b <= v.len(),
            forall|j: int| b <= j < v.len() ==> is_ws(#[trigger] v@[j]),
        decreases b,
    {
        b = b - 1;
    }
    proof {
        lemma_trail_ws_char(v@, b as int);
    }
    b
}

/// The whole text is whitespace.
pub fn blank(v: &Vec<char>) -> (r: bool)
    ensures
        r == is_blank(v@),
{
    let mut i: usize = 0;
    while i < v.len()
        invariant
            i <= v.len(),
            forall|j: int| 0 <= j < i ==> is_ws(#[trigger] v@[j]),
        decreases v.len() - i,
    {
        if !is_whitespace(v[i]) {
            return false;
        }
        i = i + 1;
    }
    true
}

// ── UTF-8 byte lengths ───────────────────────────────────────────────────────

/// Number of bytes in the UTF-8 encoding of `c` (`char::len_utf8`).
pub open spec fn char_width(c: char) -> nat {
    let u = c as u32;
    if u < 0x80 {
        1
    } else if u < 0x800 {
        2
    } else if u < 0x10000 {
        3
    } else {
        4
    }
}

/// Number of bytes in the UTF-8 encoding of `s` (`str::len`).
pub open spec fn utf8_len(s: Seq<char>) -> nat
    decreases s.len(),
{
    if s.len() == 0 {
        0
    } else {
        utf8_len(s.drop_last()) + char_width(s.last())
    }
}

/// `char::len_utf8`.
pub fn len_utf8(c: char) -> (r: usize)
    ensures
        r == char_width(c),
{
    let u = c as u32;
    if u < 0x80 {
        1
    } else if u < 0x800 {
        2
    } else if u < 0x10000 {
        3
    } else {
        4
    }
}

/// Longer prefixes take more bytes, at least one per character.
pub proof fn lemma_utf8_len_mono(s: Seq<char>, i: int, j: int)
    requires
        0 <= i <= j <= s.len(),
    ensures
        utf8_len(s.take(i)) <= utf8_len(s.take(j)),
        utf8_len(s.take(i)) + (j - i) <= utf8_len(s.take(j)),
    decreases j - i,
{
    if i < j {
        lemma_utf8_len_mono(s, i, j - 1);
        assert(s.take(j).drop_last() =~= s.take(j - 1));
    }
}

/// Byte length of the prefix of `s` of length `i + 1`, from that of length `i`.
pub proof fn lemma_utf8_len_step(s: Seq<char>, i: int)
    requires
        0 <= i < s.len(),
    ensures
        utf8_len(s.take(i + 1)) == utf8_len(s.take(i)) + char_width(s[i]),
{
    assert(s.take(i + 1).drop_last() =~= s.take(i));
}

/// Byte length of a character sequence; `None` when it exceeds `limit`.
pub fn utf8_len_upto(v: &Vec<char>, limit: usize) -> (r: Option<usize>)
    ensures
        r matches Some(n) ==> n == utf8_len(v@) && n <= limit,
        r is None ==> utf8_len(v@) > limit,
{
    let mut n: usize = 0;
    let mut i: usize = 0;
    while i < v.len()
        invariant
            i <= v.len(),
            n == utf8_len(v@.take(i as int)),
            n <= limit,
        decreases v.len() - i,
    {
        proof {
            lemma_utf8_len_step(v@, i as int);
        }
        let w = len_utf8(v[i]);
        if w > limit - n {
            proof {
                lemma_utf8_len_mono(v@, i + 1, v.len() as int);
                assert(v@.take(v.len() as int) =~= v@);
            }
            return None;
        }
        n = n + w;
        i = i + 1;
    }
    assert(v@.take(i as int) =~= v@);
    Some(n)
}

/// Length of the longest prefix of `s` whose UTF-8 encoding fits in `max` bytes.
pub open spec fn fit_prefix_len(s: Seq<char>, max: int) -> int
    decreases s.len(),
{
    if s.len() == 0 || utf8_len(s) <= max {
        s.len() as int
    } else {
        fit_prefix_len(s.drop_last(), max)
    }
}

/// Meaning of [`fit_prefix_len`]: the prefix fits, one more character would not.
pub proof fn lemma_fit_prefix(s: Seq<char>, max: int)
    requires
        max >= 0,
    ensures
        0 <= fit_prefix_len(s, max) <= s.len(),
        utf8_len(s.take(fit_prefix_len(s, max))) <= max,
        fit_prefix_len(s, max) < s.len() ==> utf8_len(s.take(fit_prefix_len(s, max) + 1)) > max,
    decreases s.len(),
{
    if s.len() == 0 || utf8_len(s) <= max {
        assert(s.take(s.len() as int) =~= s);
    } else {
        lemma_fit_prefix(s.drop_last(), max);
        let k = fit_prefix_len(s.drop_last(), max);
        assert(s.drop_last().take(k) =~= s.take(k));
        if k < s.len() - 1 {
            assert(s.drop_last().take(k + 1) =~= s.take(k + 1));
        } else {
            assert(s.take(k + 1) =~= s);
        }
    }
}

/// A prefix length `k` with the two properties of `fit_prefix_len` is `fit_prefix_len`.
pub proof fn lemma_fit_prefix_unique(s: Seq<char>, max: int, k: int)
    requires
        max >= 0,
        0 <= k <= s.len(),
        utf8_len(s.take(k)) <= max,
        k < s.len() ==> utf8_len(s.take(k + 1)) > max,
    ensures
        fit_prefix_len(s, max) == k,
{
    lemma_fit_prefix(s, max);
    let f = fit_prefix_len(s, max);
    if f < k {
        lemma_utf8_len_mono(s, f + 1, k);
    } else if k < f {
        lemma_utf8_len_mono(s, k + 1, f);
    }
}

/// Number of characters of `v` that fit in `max` UTF-8 bytes.
pub fn fit_prefix(v: &Vec<char>, max: usize) -> (k: usize)
    ensures
        k == fit_prefix_len(v@, max as int),
        k <= v.len(),
{
    let mut n: usize = 0;
    let mut i: usize = 0;
    while i < v.len()
        invariant
            i <= v.len(),
            n == utf8_len(v@.take(i as int)),
            n <= max,
        decreases v.len() - i,
    {
        proof {
            lemma_utf8_len_step(v@, i as int);
        }
        let w = len_utf8(v[i]);
        if w > max - n {
            proof {
                lemma_fit_prefix_unique(v@, max as int, i as int);
            }
            return i;
        }
        n = n + w;
        i = i + 1;
    }
    proof {
        lemma_fit_prefix_unique(v@, max as int, i as int);
    }
    i
}

proof fn lemma_char_width_encoding(c: char)
    ensures
        vstd::utf8::encode_scalar(c as u32).len() == char_width(c),
{
    vstd::utf8::char_is_scalar(c);
}

proof fn lemma_encode_utf8_push(s: Seq<char>, c: char)
    ensures
        vstd::utf8::encode_utf8(s.push(c)).len() == vstd::utf8::encode_utf8(s).len() + char_width(c),
    decreases s.len(),
{
    lemma_char_width_encoding(c);
    let t = s.push(c);
    assert(vstd::utf8::encode_utf8(t) == vstd::utf8::encode_scalar(t[0] as u32)
        + vstd::utf8::encode_utf8(t.drop_first()));
    if s.len() == 0 {
        assert(t.drop_first() =~= Seq::<char>::empty());
        assert(vstd::utf8::encode_utf8(Seq::<char>::empty()).len() == 0);
        assert(vstd::utf8::encode_utf8(s).len() == 0);
    } else {
        assert(t.drop_first() =~= s.drop_first().push(c));
        assert(t[0] == s[0]);
        assert(vstd::utf8::encode_utf8(s) == vstd::utf8::encode_scalar(s[0] as u32)
            + vstd::utf8::encode_utf8(s.drop_first()));
        lemma_char_width_encoding(s[0]);
        lemma_encode_utf8_push(s.drop_first(), c);
    }
}

/// The byte length modelled by [`utf8_len`] is the length of the text's
/// UTF-8 encoding, which `str::len` returns.
pub proof fn lemma_utf8_len_is_encoding_len(s: Seq<char>)
    ensures
        utf8_len(s) == vstd::utf8::encode_utf8(s).len(),
    decreases s.len(),
{
    if s.len() > 0 {
        lemma_utf8_len_is_encoding_len(s.drop_last());
        assert(s.drop_last().push(s.last()) =~= s);
        lemma_encode_utf8_push(s.drop_last(), s.last());
    }
}


// ── Key/value lists ───────────────────────────────────────────────────────────

/// The model of a list of string pairs.
pub open spec fn pair_views(ps: Seq<(String, String)>) -> Seq<(Seq<char>, Seq<char>)> {
    Seq::new(ps.len(), |i: int| (ps[i].0@, ps[i].1@))
}

/// The value of the first entry of `ps` whose key is `key`.
pub open spec fn first_value(ps: Seq<(Seq<char>, Seq<char>)>, key: Seq<char>) -> Option<Seq<char>>
    decreases ps.len(),
{
    if ps.len() == 0 {
        None
    } else if ps[0].0 == key {
        Some(ps[0].1)
    } else {
        first_value(ps.drop_first(), key)
    }
}

/// The model of an optional string.
pub open spec fn string_opt(o: Option<String>) -> Option<Seq<char>> {
    match o {
        Some(s) => Some(s@),
        None => None,
    }
}

/// The value of the first entry of `ps` whose key is `key` (see [`first_value`]).
pub fn find_value(ps: &[(String, String)], key: &str) -> (r: Option<String>)
    ensures
        string_opt(r) == first_value(pair_views(ps@), key@),
{
    let kv = chars_of(key);
    let ghost pv = pair_views(ps@);
    let mut i: usize = 0;
    assert(pv.skip(0) =~= pv);
    while i < ps.len()
        invariant
            i <= ps.len(),
            pv == pair_views(ps@),
            kv@ == key@,
            first_value(pv, key@) == first_value(pv.skip(i as int), key@),
        decreases ps.len() - i,
    {
        let cv = chars_of(ps[i].0.as_str());
        assert(pv.skip(i as int)[0] == pv[i as int]);
        if chars_eq(&cv, &kv) {
            return Some(ps[i].1.clone());
        }
        assert(pv.skip(i as int).drop_first() =~= pv.skip(i + 1));
        i = i + 1;
    }
    assert(pv.skip(i as int) =~= Seq::<(Seq<char>, Seq<char>)>::empty());
    None
}


/// No key occurs twice among the entries `es`.
pub open spec fn distinct_keys<V>(es: Seq<(Seq<char>, V)>) -> bool {
    forall|i: int, j: int| 0 <= i < es.len() && 0 <= j < es.len() && i != j ==> #[trigger] es[i].0 != #[trigger] es[j].0
}

/// The map of the entries `es`, a later entry of a key replacing an earlier
/// one.
pub open spec fn entries_map<V>(es: Seq<(Seq<char>, V)>) -> Map<Seq<char>, V>
    decreases es.len(),
{
    if es.len() == 0 {
        Map::empty()
    } else {
        entries_map(es.drop_last()).insert(es.last().0, es.last().1)
    }
}

/// The keys of [`entries_map`] are those of the entries; with distinct keys
/// each entry's value is the map's.
pub proof fn lemma_entries_map<V>(es: Seq<(Seq<char>, V)>)
    ensures
        forall|k: Seq<char>|
            #[trigger] entries_map(es).contains_key(k) <==> exists|i: int| 0 <= i < es.len() && es[i].0 == k,
        distinct_keys(es) ==> forall|i: int|
            0 <= i < es.len() ==> #[trigger] entries_map(es)[es[i].0] == es[i].1,
    decreases es.len(),
{
    if es.len() > 0 {
        let prev = es.drop_last();
        lemma_entries_map(prev);
        assert(entries_map(es) == entries_map(prev).insert(es.last().0, es.last().1));
        assert forall|k: Seq<char>| #[trigger] entries_map(es).contains_key(k) <==> exists|i: int|
            0 <= i < es.len() && es[i].0 == k by {
            if entries_map(es).contains_key(k) {
                if k == es.last().0 {
                    assert(es[es.len() - 1].0 == k);
                } else {
                    assert(entries_map(prev).contains_key(k));
                    let i = choose|i: int| 0 <= i < prev.len() && prev[i].0 == k;
                    assert(es[i] == prev[i]);
                }
            }
            if exists|i: int| 0 <= i < es.len() && es[i].0 == k {
                let i = choose|i: int| 0 <= i < es.len() && es[i].0 == k;
                if i < prev.len() {
                    assert(prev[i] == es[i]);
                    assert(entries_map(prev).contains_key(k));
                }
            }
        }
        if distinct_keys(es) {
            assert(distinct_keys(prev)) by {
                assert forall|i: int, j: int| 0 <= i < prev.len() && 0 <= j < prev.len() && i != j implies #[trigger] prev[i].0
                    != #[trigger] prev[j].0 by {
                    assert(prev[i] == es[i] && prev[j] == es[j]);
                }
            }
            assert forall|i: int| 0 <= i < es.len() implies #[trigger] entries_map(es)[es[i].0] == es[i].1 by {
                if i < es.len() - 1 {
                    assert(prev[i] == es[i]);
                    assert(es[i].0 != es[es.len() - 1].0);
                }
            }
        }
    }
}

} // verus!
