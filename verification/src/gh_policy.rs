//! The policy of the jailed `gh` proxy: which `gh` command lines a jailed
//! process may run, and why the others are refused.
use vstd::prelude::*;
use vstd::string::StrSliceExecFns;

use crate::jail::{github_slug, github_slug_spec};
use crate::text::{
    chars_eq, chars_of, copy_range, extend_chars, has_prefix, starts_with, string_of, string_views,
};

verus! {

broadcast use vstd::seq_lib::group_seq_properties;

/// Views of a sequence of string slices.
pub open spec fn str_views(v: Seq<&str>) -> Seq<Seq<char>> {
    Seq::new(v.len(), |i: int| v[i]@)
}

/// The model of a `Result<(), String>`.
pub open spec fn outcome(r: Result<(), String>) -> Result<(), Seq<char>> {
    match r {
        Ok(()) => Ok(()),
        Err(e) => Err(e@),
    }
}

// ── ASCII case ────────────────────────────────────────────────────────────────

/// `char::to_ascii_lowercase`.
pub open spec fn ascii_lower(c: char) -> char {
    if 65 <= (c as u32) <= 90 {
        ((c as u32) + 32) as char
    } else {
        c
    }
}

/// `str::eq_ignore_ascii_case`.
pub open spec fn eq_ignore_ascii_case(a: Seq<char>, b: Seq<char>) -> bool {
    a.len() == b.len() && forall|i: int| 0 <= i < a.len() ==> #[trigger] ascii_lower(a[i]) == ascii_lower(b[i])
}

fn to_ascii_lower(c: char) -> (r: char)
    ensures
        r == ascii_lower(c),
{
    let u = c as u32;
    if 65 <= u && u <= 90 {
        let b = (u + 32) as u8;
        let r = b as char;
        assert(r == ascii_lower(c));
        r
    } else {
        c
    }
}

fn same_ignoring_ascii_case(a: &Vec<char>, b: &Vec<char>) -> (r: bool)
    ensures
        r == eq_ignore_ascii_case(a@, b@),
{
    if a.len() != b.len() {
        return false;
    }
    let mut i: usize = 0;
    while i < a.len()
        invariant
            a.len() == b.len(),
            i <= a.len(),
            forall|j: int| 0 <= j < i ==> #[trigger] ascii_lower(a@[j]) == ascii_lower(b@[j]),
        decreases a.len() - i,
    {
        if to_ascii_lower(a[i]) != to_ascii_lower(b[i]) {
            return false;
        }
        i = i + 1;
    }
    true
}

// ── Joining ───────────────────────────────────────────────────────────────────

/// The texts `xs` joined with `sep` between consecutive ones (`[..].join(sep)`).
pub open spec fn joined(xs: Seq<Seq<char>>, sep: Seq<char>) -> Seq<char>
    decreases xs.len(),
{
    if xs.len() == 0 {
        Seq::empty()
    } else if xs.len() == 1 {
        xs[0]
    } else {
        joined(xs.drop_last(), sep) + sep + xs.last()
    }
}

fn join_strings(xs: &[String], sep: &str) -> (r: Vec<char>)
    ensures
        r@ == joined(string_views(xs@), sep@),
{
    let s = chars_of(sep);
    let mut out: Vec<char> = Vec::new();
    let mut i: usize = 0;
    while i < xs.len()
        invariant
            i <= xs.len(),
            s@ == sep@,
            out@ == joined(string_views(xs@).take(i as int), sep@),
        decreases xs.len() - i,
    {
        let x = chars_of(xs[i].as_str());
        proof {
            assert(string_views(xs@).take(i + 1).drop_last() =~= string_views(xs@).take(i as int));
        }
        if i > 0 {
            extend_chars(&mut out, &s);
        }
        extend_chars(&mut out, &x);
        i = i + 1;
    }
    assert(string_views(xs@).take(i as int) =~= string_views(xs@));
    out
}

/// `a`, then `b`, then `c`, as one `String`.
fn concat3(a: &str, b: &Vec<char>, c: &str) -> (r: String)
    ensures
        r@ == a@ + b@ + c@,
{
    let mut out = chars_of(a);
    extend_chars(&mut out, b);
    let cv = chars_of(c);
    extend_chars(&mut out, &cv);
    string_of(&out)
}

// ── Repository restriction ────────────────────────────────────────────────────

/// Whether `repo` may be used: always when no repository is listed, else
/// when it is one of `allowed` up to ASCII case; the refusal names the repo
/// and the list.
pub open spec fn repo_check(repo: Seq<char>, allowed: Seq<Seq<char>>) -> Result<(), Seq<char>> {
    if allowed.len() == 0 || exists|i: int|
        0 <= i < allowed.len() && eq_ignore_ascii_case(#[trigger] allowed[i], repo) {
        Ok(())
    } else {
        Err("repo '"@ + repo + "' is not in the allowed list ("@ + joined(allowed, ", "@) + ")"@)
    }
}

/// Rejects `repo` unless it is in the allowed list (no-op when the list is empty).
pub fn check_repo_allowed(repo: &str, allowed: &[String]) -> (r: Result<(), String>)
    ensures
        outcome(r) == repo_check(repo@, string_views(allowed@)),
{
    if allowed.len() == 0 {
        return Ok(());
    }
    let rv = chars_of(repo);
    let mut i: usize = 0;
    while i < allowed.len()
        invariant
            i <= allowed.len(),
            rv@ == repo@,
            forall|j: int|
                0 <= j < i ==> !eq_ignore_ascii_case(#[trigger] string_views(allowed@)[j], repo@),
        decreases allowed.len() - i,
    {
        let a = chars_of(allowed[i].as_str());
        if same_ignoring_ascii_case(&a, &rv) {
            assert(string_views(allowed@)[i as int] == a@);
            return Ok(());
        }
        i = i + 1;
    }
    let list = join_strings(allowed, ", ");
    let mut msg = chars_of("repo '");
    extend_chars(&mut msg, &rv);
    let mid = chars_of("' is not in the allowed list (");
    extend_chars(&mut msg, &mid);
    extend_chars(&mut msg, &list);
    let end = chars_of(")");
    extend_chars(&mut msg, &end);
    Err(string_of(&msg))
}

// ── Flags ─────────────────────────────────────────────────────────────────────

/// A one-letter flag such as `-X`, which also takes its value attached
/// (`-XPOST`).
pub open spec fn is_short_flag(f: Seq<char>) -> bool {
    f.len() == 2 && f[0] == '-' && f[1] != '-'
}

/// The value that `arg` gives one of `flags[k..]` in the form `FLAG=VALUE`,
/// or attached to a one-letter flag (`-XVALUE`), trying the flags in order.
pub open spec fn eq_flag_value(arg: Seq<char>, flags: Seq<Seq<char>>, k: int) -> Option<Seq<char>>
    decreases flags.len() - k,
{
    if k < 0 || k >= flags.len() {
        None
    } else if has_prefix(arg, flags[k].push('=')) {
        Some(arg.skip(flags[k].len() as int + 1))
    } else if is_short_flag(flags[k]) && arg.len() > 2 && has_prefix(arg, flags[k]) {
        Some(arg.skip(2))
    } else {
        eq_flag_value(arg, flags, k + 1)
    }
}

/// The value of the first of `args[i..]` that sets one of `flags`: the
/// argument after an exact flag (none if it is the last), the part after `=`
/// of `FLAG=VALUE`, or the value attached to a one-letter flag.
pub open spec fn flag_value_from(args: Seq<Seq<char>>, flags: Seq<Seq<char>>, i: int) -> Option<
    Seq<char>,
>
    decreases args.len() - i,
{
    if i < 0 || i >= args.len() {
        None
    } else if flags.contains(args[i]) {
        if i + 1 < args.len() {
            Some(args[i + 1])
        } else {
            None
        }
    } else {
        match eq_flag_value(args[i], flags, 0) {
            Some(v) => Some(v),
            None => flag_value_from(args, flags, i + 1),
        }
    }
}

/// The value given to one of `flags` in `args` (see [`flag_value_from`]).
pub open spec fn flag_value(args: Seq<Seq<char>>, flags: Seq<Seq<char>>) -> Option<Seq<char>> {
    flag_value_from(args, flags, 0)
}

/// The model of an optional string slice.
pub open spec fn opt_view(r: Option<&str>) -> Option<Seq<char>> {
    match r {
        Some(s) => Some(s@),
        None => None,
    }
}

/// Finds the value following a flag like `-R`/`--repo`, or given as
/// `--repo=VALUE`, or attached to a one-letter flag (`-Rowner/repo`).
pub fn find_flag<'a>(args: &'a [String], flags: &[&str]) -> (r: Option<&'a str>)
    ensures
        opt_view(r) == flag_value(string_views(args@), str_views(flags@)),
{
    let ghost sa = string_views(args@);
    let ghost sf = str_views(flags@);
    let mut i: usize = 0;
    while i < args.len()
        invariant
            i <= args.len(),
            sa == string_views(args@),
            sf == str_views(flags@),
            flag_value(sa, sf) == flag_value_from(sa, sf, i as int),
        decreases args.len() - i,
    {
        let arg = chars_of(args[i].as_str());
        assert(sa[i as int] == arg@);
        // An exact flag takes the next argument as its value.
        let mut k: usize = 0;
        while k < flags.len()
            invariant
                k <= flags.len(),
                i < args.len(),
                sa == string_views(args@),
                sf == str_views(flags@),
                arg@ == sa[i as int],
                flag_value(sa, sf) == flag_value_from(sa, sf, i as int),
                forall|m: int| 0 <= m < k ==> sf[m] != arg@,
            decreases flags.len() - k,
        {
            let f = chars_of(flags[k]);
            if chars_eq(&f, &arg) {
                assert(sf[k as int] == arg@);
                assert(sf.contains(sa[i as int]));
                if i + 1 < args.len() {
                    return Some(args[i + 1].as_str());
                } else {
                    return None;
                }
            }
            k = k + 1;
        }
        assert(!sf.contains(sa[i as int]));
        // `FLAG=VALUE`.
        let mut k: usize = 0;
        while k < flags.len()
            invariant
                k <= flags.len(),
                i < args.len(),
                sa == string_views(args@),
                sf == str_views(flags@),
                arg@ == sa[i as int],
                args@[i as int]@ == arg@,
                !sf.contains(sa[i as int]),
                flag_value(sa, sf) == flag_value_from(sa, sf, i as int),
                eq_flag_value(arg@, sf, 0) == eq_flag_value(arg@, sf, k as int),
            decreases flags.len() - k,
        {
            let plain = chars_of(flags[k]);
            let mut f = chars_of(flags[k]);
            f.push('=');
            assert(f@ == sf[k as int].push('='));
            if starts_with(&arg, &f) {
                let n = args[i].as_str().unicode_len();
                assert(f.len() <= n);
                return Some(args[i].as_str().substring_char(f.len(), n));
            }
            let short = plain.len() == 2 && plain[0] == '-' && plain[1] != '-';
            assert(short == is_short_flag(sf[k as int]));
            if short && arg.len() > 2 && starts_with(&arg, &plain) {
                let n = args[i].as_str().unicode_len();
                return Some(args[i].as_str().substring_char(2, n));
            }
            k = k + 1;
        }
        i = i + 1;
    }
    None
}

// ── `gh api` paths ────────────────────────────────────────────────────────────

/// Number of leading `'/'` of `s`.
pub open spec fn lead_slashes(s: Seq<char>) -> nat
    decreases s.len(),
{
    if s.len() > 0 && s[0] == '/' {
        1 + lead_slashes(s.drop_first())
    } else {
        0
    }
}

/// Position of the first `'/'` of `s`, or `s.len()`.
pub open spec fn first_slash(s: Seq<char>) -> int
    decreases s.len(),
{
    if s.len() == 0 {
        0
    } else if s[0] == '/' {
        0
    } else {
        1 + first_slash(s.drop_first())
    }
}

/// `owner/repo` from an API path `/repos/owner/repo/...`, its leading
/// slashes ignored; `None` for another path or one without a repo part.
pub open spec fn api_repo_of(arg: Seq<char>) -> Option<Seq<char>> {
    let path = arg.skip(lead_slashes(arg) as int);
    if has_prefix(path, "repos/"@) {
        owner_repo_of(path.skip(6))
    } else {
        None
    }
}

/// `owner/repo` from `owner/repo/...`: the text up to the first `'/'`, a
/// `'/'`, and the text up to the next one; `None` without a first `'/'`.
pub open spec fn owner_repo_of(rest: Seq<char>) -> Option<Seq<char>> {
    let p = first_slash(rest);
    if p >= rest.len() {
        None
    } else {
        let after = rest.skip(p + 1);
        Some(rest.take(p) + seq!['/'] + after.take(first_slash(after)))
    }
}

/// Position of the first positional argument at or after `i`: one that is
/// not a flag nor the value following a flag of `value_flags` (flags given
/// exactly, which take the next argument as their value); after `--`, the
/// next argument whatever it looks like.
pub open spec fn first_positional(args: Seq<Seq<char>>, i: int, value_flags: Seq<Seq<char>>) -> Option<
    int,
>
    decreases args.len() + 2 - i,
{
    if i < 0 || i >= args.len() {
        None
    } else if args[i] == "--"@ {
        if i + 1 < args.len() {
            Some(i + 1)
        } else {
            None
        }
    } else if has_prefix(args[i], seq!['-']) {
        if value_flags.contains(args[i]) {
            first_positional(args, i + 2, value_flags)
        } else {
            first_positional(args, i + 1, value_flags)
        }
    } else {
        Some(i)
    }
}

/// The flags of `gh api` that take a value.
pub open spec fn api_value_flags() -> Seq<Seq<char>> {
    seq![
        "-X"@,
        "--method"@,
        "-H"@,
        "--header"@,
        "-f"@,
        "--raw-field"@,
        "-F"@,
        "--field"@,
        "--input"@,
        "-q"@,
        "--jq"@,
        "-t"@,
        "--template"@,
        "--cache"@,
        "--hostname"@,
        "-p"@,
        "--preview"@,
    ]
}

/// The repository named by the path of a `gh api` call: the first
/// positional argument after the subcommand.
pub open spec fn api_path_repo_spec(args: Seq<Seq<char>>) -> Option<Seq<char>> {
    match first_positional(args, 1, api_value_flags()) {
        Some(i) => api_repo_of(args[i]),
        None => None,
    }
}

proof fn lemma_lead_slashes(s: Seq<char>)
    ensures
        lead_slashes(s) <= s.len(),
        forall|j: int| 0 <= j < lead_slashes(s) ==> s[j] == '/',
        lead_slashes(s) < s.len() ==> s[lead_slashes(s) as int] != '/',
    decreases s.len(),
{
    if s.len() > 0 && s[0] == '/' {
        lemma_lead_slashes(s.drop_first());
        assert forall|j: int| 0 <= j < lead_slashes(s) implies s[j] == '/' by {
            if j > 0 {
                assert(s[j] == s.drop_first()[j - 1]);
            }
        }
    }
}

proof fn lemma_first_slash(s: Seq<char>)
    ensures
        0 <= first_slash(s) <= s.len(),
        first_slash(s) < s.len() ==> s[first_slash(s)] == '/',
        forall|j: int| 0 <= j < first_slash(s) ==> s[j] != '/',
    decreases s.len(),
{
    if s.len() > 0 && s[0] != '/' {
        lemma_first_slash(s.drop_first());
        assert forall|j: int| 0 <= j < first_slash(s) implies s[j] != '/' by {
            if j > 0 {
                assert(s[j] == s.drop_first()[j - 1]);
            }
        }
    }
}

/// Position of the first `'/'` of `v` at or after `a`, or `v.len()`.
fn slash_from(v: &Vec<char>, a: usize) -> (r: usize)
    requires
        a <= v.len(),
    ensures
        r - a == first_slash(v@.skip(a as int)),
        a <= r <= v.len(),
{
    let mut j: usize = a;
    while j < v.len() && v[j] != '/'
        invariant
            a <= j <= v.len(),
            forall|m: int| a <= m < j ==> v@[m] != '/',
        decreases v.len() - j,
    {
        j = j + 1;
    }
    proof {
        let s = v@.skip(a as int);
        lemma_first_slash(s);
        let f = first_slash(s);
        if f < j - a {
            assert(s[f] == v@[a + f]);
        } else if j - a < f {
            assert(s[j - a] == v@[j as int]);
        }
    }
    j
}

fn lead_slash_count(arg: &Vec<char>) -> (a: usize)
    ensures
        a == lead_slashes(arg@),
        a <= arg.len(),
{
    let mut a: usize = 0;
    while a < arg.len() && arg[a] == '/'
        invariant
            a <= arg.len(),
            forall|m: int| 0 <= m < a ==> arg@[m] == '/',
        decreases arg.len() - a,
    {
        a = a + 1;
    }
    proof {
        lemma_lead_slashes(arg@);
        let l = lead_slashes(arg@);
        if l < a {
            assert(arg@[l as int] == '/');
        } else if a < l {
            assert(arg@[a as int] == '/');
        }
    }
    a
}

/// `owner/repo` from `rest` (see [`owner_repo_of`]).
fn owner_repo(rest: &Vec<char>) -> (r: Option<String>)
    ensures
        r matches Some(s) ==> owner_repo_of(rest@) == Some(s@),
        r is None ==> owner_repo_of(rest@) is None,
{
    let p = slash_from(rest, 0);
    assert(rest@.skip(0) =~= rest@);
    if p >= rest.len() {
        return None;
    }
    let after = copy_range(rest, p + 1, rest.len());
    assert(after@ =~= rest@.skip(p + 1));
    let q = slash_from(&after, 0);
    assert(after@.skip(0) =~= after@);
    let mut out = copy_range(rest, 0, p);
    out.push('/');
    let tail = copy_range(&after, 0, q);
    extend_chars(&mut out, &tail);
    assert(out@ =~= rest@.take(p as int) + seq!['/'] + after@.take(q as int));
    Some(string_of(&out))
}

/// `owner/repo` from the path argument `arg` (see [`api_repo_of`]).
fn repo_of_api_path(arg: &Vec<char>) -> (r: Option<String>)
    ensures
        r matches Some(s) ==> api_repo_of(arg@) == Some(s@),
        r is None ==> api_repo_of(arg@) is None,
{
    let a = lead_slash_count(arg);
    let path = copy_range(arg, a, arg.len());
    assert(path@ =~= arg@.skip(a as int));
    let prefix = chars_of("repos/");
    if !starts_with(&path, &prefix) {
        return None;
    }
    proof {
        reveal_strlit("repos/");
    }
    let rest = copy_range(&path, 6, path.len());
    assert(rest@ =~= path@.skip(6));
    owner_repo(&rest)
}

/// Whether `arg` is one of `flags`.
fn is_one_of(arg: &Vec<char>, flags: &[&str]) -> (r: bool)
    ensures
        r == str_views(flags@).contains(arg@),
{
    let ghost sf = str_views(flags@);
    let mut k: usize = 0;
    while k < flags.len()
        invariant
            k <= flags.len(),
            sf == str_views(flags@),
            forall|m: int| 0 <= m < k ==> sf[m] != arg@,
        decreases flags.len() - k,
    {
        let f = chars_of(flags[k]);
        if chars_eq(&f, arg) {
            assert(sf[k as int] == arg@);
            return true;
        }
        k = k + 1;
    }
    false
}

/// Position of the first positional argument at or after `i` (see
/// [`first_positional`]).
pub fn positional_from(args: &[String], i: usize, value_flags: &[&str]) -> (r: Option<usize>)
    ensures
        match r {
            Some(j) => first_positional(string_views(args@), i as int, str_views(value_flags@))
                == Some(j as int) && j < args.len(),
            None => first_positional(string_views(args@), i as int, str_views(value_flags@))
                is None,
        },
{
    let ghost sa = string_views(args@);
    let ghost vf = str_views(value_flags@);
    let mut k: usize = i;
    while k < args.len()
        invariant
            sa == string_views(args@),
            vf == str_views(value_flags@),
            i <= k,
            first_positional(sa, i as int, vf) == first_positional(sa, k as int, vf),
        decreases args.len() - k,
    {
        let arg = chars_of(args[k].as_str());
        assert(sa[k as int] == arg@);
        if crate::text::is_text(&arg, "--") {
            if k + 1 < args.len() {
                return Some(k + 1);
            }
            return None;
        }
        if arg.len() > 0 && arg[0] == '-' {
            assert(arg@.take(1) =~= seq!['-']);
            if is_one_of(&arg, value_flags) {
                if k + 1 >= args.len() {
                    assert(first_positional(sa, k + 2, vf) is None);
                    return None;
                }
                k = k + 2;
            } else {
                k = k + 1;
            }
        } else {
            proof {
                if has_prefix(arg@, seq!['-']) {
                    assert(arg@[0] == seq!['-'][0]);
                }
            }
            return Some(k);
        }
    }
    None
}

/// The flags of `gh api` that take a value, as text.
fn api_value_flag_list() -> (r: Vec<&'static str>)
    ensures
        str_views(r@) == api_value_flags(),
{
    let v = vec![
        "-X",
        "--method",
        "-H",
        "--header",
        "-f",
        "--raw-field",
        "-F",
        "--field",
        "--input",
        "-q",
        "--jq",
        "-t",
        "--template",
        "--cache",
        "--hostname",
        "-p",
        "--preview",
    ];
    assert(str_views(v@) =~= api_value_flags());
    v
}

/// Extracts `owner/repo` from a `gh api` path argument like
/// `/repos/owner/repo/pulls`: the first positional argument after the
/// subcommand, skipping flags and their values.
pub fn api_path_repo(args: &[String]) -> (r: Option<String>)
    ensures
        r matches Some(s) ==> api_path_repo_spec(string_views(args@)) == Some(s@),
        r is None ==> api_path_repo_spec(string_views(args@)) is None,
{
    let flags = api_value_flag_list();
    match positional_from(args, 1, flags.as_slice()) {
        Some(j) => {
            let arg = chars_of(args[j].as_str());
            assert(string_views(args@)[j as int] == arg@);
            repo_of_api_path(&arg)
        },
        None => None,
    }
}

// ── The policy ────────────────────────────────────────────────────────────────

/// Subcommands that could leak credentials or change account or
/// organisation settings; never allowed.
pub open spec fn is_hard_blocked(sub: Seq<char>) -> bool {
    ||| sub == "auth"@
    ||| sub == "ssh-key"@
    ||| sub == "gpg-key"@
    ||| sub == "config"@
    ||| sub == "extension"@
    ||| sub == "alias"@
}

/// The read-only `gh repo` actions.
pub open spec fn is_safe_repo_action(action: Seq<char>) -> bool {
    action == "view"@ || action == "list"@ || action == "clone"@ || action == "sync"@
}

/// The `gh release` actions that change a release.
pub open spec fn is_release_write(action: Seq<char>) -> bool {
    action == "create"@ || action == "upload"@ || action == "delete"@ || action == "edit"@
}

/// The argument at position `i`, or the empty text when there is none.
pub open spec fn arg_or_empty(args: Seq<Seq<char>>, i: int) -> Seq<char> {
    if 0 <= i < args.len() {
        args[i]
    } else {
        Seq::empty()
    }
}

/// The flags that set the HTTP method of `gh api`.
pub open spec fn method_flags() -> Seq<Seq<char>> {
    seq!["-X"@, "--method"@]
}

/// The flags that name the repository of a command.
pub open spec fn repo_flags() -> Seq<Seq<char>> {
    seq!["-R"@, "--repo"@]
}

/// The flags of `gh api` that add parameters or a request body.
pub open spec fn field_flags() -> Seq<Seq<char>> {
    seq!["-f"@, "-F"@, "--field"@, "--raw-field"@, "--input"@]
}

/// `arg` sets one of `flags`: exactly, as `FLAG=VALUE`, or attached to a
/// one-letter flag.
pub open spec fn sets_flag(arg: Seq<char>, flags: Seq<Seq<char>>) -> bool {
    flags.contains(arg) || eq_flag_value(arg, flags, 0) is Some
}

/// Some argument after the subcommand adds a parameter or a body to a
/// `gh api` request.
pub open spec fn has_fields(args: Seq<Seq<char>>) -> bool {
    exists|i: int| 1 <= i < args.len() && sets_flag(#[trigger] args[i], field_flags())
}

/// The HTTP method of a `gh api` call: the one its flags give; without one,
/// `POST` when the request carries parameters or a body (as `gh` sends it),
/// else `GET`.
pub open spec fn api_method(args: Seq<Seq<char>>) -> Seq<char> {
    match flag_value(args, method_flags()) {
        Some(m) => m,
        None => if has_fields(args) {
            "POST"@
        } else {
            "GET"@
        },
    }
}

/// The flags of `gh repo view|clone|sync` that take a value.
pub open spec fn repo_value_flags() -> Seq<Seq<char>> {
    seq![
        "-b"@,
        "--branch"@,
        "-q"@,
        "--jq"@,
        "-t"@,
        "--template"@,
        "--json"@,
        "-u"@,
        "--upstream-remote-name"@,
        "-s"@,
        "--source"@,
        "-R"@,
        "--repo"@,
    ]
}

/// The flags that name the source repository of `gh repo sync`.
pub open spec fn source_flags() -> Seq<Seq<char>> {
    seq!["-s"@, "--source"@]
}

/// The repository a repository argument names: the `owner/repo` of a GitHub
/// URL, else the argument as given.
pub open spec fn repo_name(arg: Seq<char>) -> Seq<char> {
    match github_slug_spec(arg) {
        Some(s) => s,
        None => arg,
    }
}

/// The repositories a `gh repo view|clone|sync` command names, checked
/// against the allowed list: its repository argument (the first positional
/// one after the action) and, for `sync`, its source repository.
pub open spec fn repo_args_check(args: Seq<Seq<char>>, allowed: Seq<Seq<char>>) -> Result<
    (),
    Seq<char>,
> {
    let action = arg_or_empty(args, 1);
    if action == "view"@ || action == "clone"@ || action == "sync"@ {
        let named = match first_positional(args, 2, repo_value_flags()) {
            Some(i) => repo_check(repo_name(args[i]), allowed),
            None => Ok(()),
        };
        match named {
            Err(e) => Err(e),
            Ok(()) => if action == "sync"@ {
                match flag_value(args, source_flags()) {
                    Some(r) => repo_check(repo_name(r), allowed),
                    None => Ok(()),
                }
            } else {
                Ok(())
            },
        }
    } else {
        Ok(())
    }
}

/// Whether the jailed `gh` may run with `args`, given the write mode and the
/// allowed repositories; the refusal says why.
pub open spec fn gh_policy(args: Seq<Seq<char>>, write_mode: bool, allowed: Seq<Seq<char>>) -> Result<
    (),
    Seq<char>,
> {
    if args.len() == 0 {
        Err("no subcommand given"@)
    } else {
        let sub = args[0];
        let action = arg_or_empty(args, 1);
        if is_hard_blocked(sub) {
            Err("'"@ + sub + "' is not permitted in the jail"@)
        } else if sub == "repo"@ && !is_safe_repo_action(action) {
            Err("'repo "@ + action + "' is not permitted (allowed: view, list, clone, sync)"@)
        } else if sub == "release"@ && !write_mode && is_release_write(action) {
            Err("'release "@ + action + "' requires the --write flag"@)
        } else if sub == "api"@ {
            let method = api_method(args);
            if !eq_ignore_ascii_case(method, "GET"@) && !write_mode {
                Err("'api --method "@ + method + "' requires the --write flag"@)
            } else {
                match api_path_repo_spec(args) {
                    Some(repo) => repo_check(repo, allowed),
                    None => Ok(()),
                }
            }
        } else {
            let named = if sub == "repo"@ {
                repo_args_check(args, allowed)
            } else {
                Ok(())
            };
            match named {
                Err(e) => Err(e),
                Ok(()) => match flag_value(args, repo_flags()) {
                    Some(repo) => repo_check(repo, allowed),
                    None => Ok(()),
                },
            }
        }
    }
}

fn is_blocked_subcommand(v: &Vec<char>) -> (r: bool)
    ensures
        r == is_hard_blocked(v@),
{
    crate::text::is_text(v, "auth") || crate::text::is_text(v, "ssh-key") || crate::text::is_text(
        v,
        "gpg-key",
    ) || crate::text::is_text(v, "config") || crate::text::is_text(v, "extension")
        || crate::text::is_text(v, "alias")
}

/// Whether `arg` sets one of `flags` (see [`sets_flag`]).
fn sets_one_of(arg: &Vec<char>, flags: &[&str]) -> (r: bool)
    ensures
        r == sets_flag(arg@, str_views(flags@)),
{
    if is_one_of(arg, flags) {
        return true;
    }
    let ghost sf = str_views(flags@);
    let mut k: usize = 0;
    while k < flags.len()
        invariant
            k <= flags.len(),
            sf == str_views(flags@),
            eq_flag_value(arg@, sf, 0) == eq_flag_value(arg@, sf, k as int),
        decreases flags.len() - k,
    {
        let plain = chars_of(flags[k]);
        let mut f = chars_of(flags[k]);
        f.push('=');
        assert(f@ == sf[k as int].push('='));
        if starts_with(arg, &f) {
            return true;
        }
        let short = plain.len() == 2 && plain[0] == '-' && plain[1] != '-';
        assert(short == is_short_flag(sf[k as int]));
        if short && arg.len() > 2 && starts_with(arg, &plain) {
            return true;
        }
        k = k + 1;
    }
    false
}

/// Whether a `gh api` request carries parameters or a body (see [`has_fields`]).
fn has_field_flag(args: &[String]) -> (r: bool)
    ensures
        r == has_fields(string_views(args@)),
{
    let ghost sa = string_views(args@);
    let flags = vec!["-f", "-F", "--field", "--raw-field", "--input"];
    assert(str_views(flags@) =~= field_flags());
    let mut i: usize = 1;
    while i < args.len()
        invariant
            1 <= i,
            sa == string_views(args@),
            str_views(flags@) == field_flags(),
            forall|j: int| 1 <= j < i && j < args.len() ==> !sets_flag(#[trigger] sa[j], field_flags()),
        decreases args.len() - i,
    {
        let arg = chars_of(args[i].as_str());
        assert(sa[i as int] == arg@);
        if sets_one_of(&arg, flags.as_slice()) {
            return true;
        }
        i = i + 1;
    }
    false
}

/// The repository an argument names (see [`repo_name`]).
fn repo_name_of(arg: &str) -> (r: String)
    ensures
        r@ == repo_name(arg@),
{
    match github_slug(arg) {
        Some(s) => s,
        None => {
            let v = chars_of(arg);
            string_of(&v)
        },
    }
}

/// Checks the repositories a `gh repo` command names (see [`repo_args_check`]).
fn repo_args_allowed(args: &[String], allowed_repos: &[String]) -> (r: Result<(), String>)
    ensures
        outcome(r) == repo_args_check(string_views(args@), string_views(allowed_repos@)),
{
    let ghost sa = string_views(args@);
    let action = if args.len() > 1 {
        chars_of(args[1].as_str())
    } else {
        Vec::new()
    };
    assert(action@ == arg_or_empty(sa, 1));
    let is_sync = crate::text::is_text(&action, "sync");
    if !(crate::text::is_text(&action, "view") || crate::text::is_text(&action, "clone") || is_sync) {
        return Ok(());
    }
    let flags = vec![
        "-b",
        "--branch",
        "-q",
        "--jq",
        "-t",
        "--template",
        "--json",
        "-u",
        "--upstream-remote-name",
        "-s",
        "--source",
        "-R",
        "--repo",
    ];
    assert(str_views(flags@) =~= repo_value_flags());
    match positional_from(args, 2, flags.as_slice()) {
        Some(j) => {
            assert(sa[j as int] == args@[j as int]@);
            let name = repo_name_of(args[j].as_str());
            match check_repo_allowed(name.as_str(), allowed_repos) {
                Err(e) => {
                    return Err(e);
                },
                Ok(()) => {},
            }
        },
        None => {},
    }
    if is_sync {
        let source = vec!["-s", "--source"];
        assert(str_views(source@) =~= source_flags());
        match find_flag(args, source.as_slice()) {
            Some(r) => {
                let name = repo_name_of(r);
                return check_repo_allowed(name.as_str(), allowed_repos);
            },
            None => {},
        }
    }
    Ok(())
}

/// Returns `Ok(())` if the command is permitted, `Err(reason)` if it is blocked.
pub fn check_allowed(args: &[String], write_mode: bool, allowed_repos: &[String]) -> (r: Result<
    (),
    String,
>)
    ensures
        outcome(r) == gh_policy(string_views(args@), write_mode, string_views(allowed_repos@)),
{
    let ghost sa = string_views(args@);
    if args.len() == 0 {
        let m = chars_of("no subcommand given");
        return Err(string_of(&m));
    }
    let sub = chars_of(args[0].as_str());
    assert(sa[0] == sub@);
    let action = if args.len() > 1 {
        chars_of(args[1].as_str())
    } else {
        Vec::new()
    };
    assert(action@ == arg_or_empty(sa, 1));
    if is_blocked_subcommand(&sub) {
        return Err(concat3("'", &sub, "' is not permitted in the jail"));
    }
    if crate::text::is_text(&sub, "repo") {
        if !(crate::text::is_text(&action, "view") || crate::text::is_text(&action, "list")
            || crate::text::is_text(&action, "clone") || crate::text::is_text(&action, "sync")) {
            return Err(
                concat3("'repo ", &action, "' is not permitted (allowed: view, list, clone, sync)"),
            );
        }
    }
    if crate::text::is_text(&sub, "release") && !write_mode {
        if crate::text::is_text(&action, "create") || crate::text::is_text(&action, "upload")
            || crate::text::is_text(&action, "delete") || crate::text::is_text(&action, "edit") {
            return Err(concat3("'release ", &action, "' requires the --write flag"));
        }
    }
    if crate::text::is_text(&sub, "api") {
        let flags = vec!["-X", "--method"];
        assert(str_views(flags@) =~= method_flags());
        let method = match find_flag(args, flags.as_slice()) {
            Some(m) => chars_of(m),
            None => if has_field_flag(args) {
                chars_of("POST")
            } else {
                chars_of("GET")
            },
        };
        assert(method@ == api_method(sa));
        let get = chars_of("GET");
        if !same_ignoring_ascii_case(&method, &get) && !write_mode {
            return Err(concat3("'api --method ", &method, "' requires the --write flag"));
        }
        return match api_path_repo(args) {
            Some(repo) => check_repo_allowed(repo.as_str(), allowed_repos),
            None => Ok(()),
        };
    }
    if crate::text::is_text(&sub, "repo") {
        match repo_args_allowed(args, allowed_repos) {
            Err(e) => {
                return Err(e);
            },
            Ok(()) => {},
        }
    }
    let flags = vec!["-R", "--repo"];
    assert(str_views(flags@) =~= repo_flags());
    match find_flag(args, flags.as_slice()) {
        Some(repo) => check_repo_allowed(repo, allowed_repos),
        None => Ok(()),
    }
}

// ── Laws of the policy ────────────────────────────────────────────────────────

/// Subcommands that could leak credentials are refused whatever the write
/// mode and the allowed repositories.
pub proof fn lemma_hard_blocked_always_refused(
    args: Seq<Seq<char>>,
    write_mode: bool,
    allowed: Seq<Seq<char>>,
)
    requires
        args.len() > 0,
        is_hard_blocked(args[0]),
    ensures
        gh_policy(args, write_mode, allowed) is Err,
{
}

/// The write flag only ever permits more: a command allowed without it is
/// allowed with it.
pub proof fn lemma_write_mode_only_permits_more(args: Seq<Seq<char>>, allowed: Seq<Seq<char>>)
    requires
        gh_policy(args, false, allowed) is Ok,
    ensures
        gh_policy(args, true, allowed) is Ok,
{
}

/// An empty list of allowed repositories restricts nothing.
pub proof fn lemma_empty_allowed_list_allows_any_repo(repo: Seq<char>)
    ensures
        repo_check(repo, Seq::empty()) is Ok,
{
}

/// A list of allowed repositories only ever refuses more: a command allowed
/// under some list is allowed with no list.
pub proof fn lemma_allowed_list_only_restricts(
    args: Seq<Seq<char>>,
    write_mode: bool,
    allowed: Seq<Seq<char>>,
)
    requires
        gh_policy(args, write_mode, allowed) is Ok,
    ensures
        gh_policy(args, write_mode, Seq::empty()) is Ok,
{
}

/// A repository on the allowed list passes, whatever its ASCII case.
pub proof fn lemma_listed_repo_passes(repo: Seq<char>, allowed: Seq<Seq<char>>, i: int)
    requires
        0 <= i < allowed.len(),
        eq_ignore_ascii_case(allowed[i], repo),
    ensures
        repo_check(repo, allowed) is Ok,
{
}

/// Reading the API with the default method never needs the write flag: a
/// `gh api` call without a method flag and without parameters or a body is
/// decided the same in both modes.
pub proof fn lemma_api_get_needs_no_write(args: Seq<Seq<char>>, allowed: Seq<Seq<char>>)
    requires
        args.len() > 0,
        args[0] == "api"@,
        flag_value(args, method_flags()) is None,
        !has_fields(args),
    ensures
        gh_policy(args, false, allowed) == gh_policy(args, true, allowed),
{
    reveal_strlit("GET");
    reveal_strlit("api");
    reveal_strlit("repo");
    reveal_strlit("release");
    assert(eq_ignore_ascii_case("GET"@, "GET"@));
}


/// A read-only jail runs no mutating API call: a `gh api` call allowed
/// without the write flag is a `GET`.
pub proof fn lemma_read_only_api_is_get(args: Seq<Seq<char>>, allowed: Seq<Seq<char>>)
    requires
        args.len() > 0,
        args[0] == "api"@,
        gh_policy(args, false, allowed) is Ok,
    ensures
        eq_ignore_ascii_case(api_method(args), "GET"@),
{
    reveal_strlit("api");
    reveal_strlit("repo");
    reveal_strlit("release");
}

/// A `gh repo view|clone|sync` whose repository argument names a repository
/// outside a non-empty allowed list is refused.
pub proof fn lemma_named_repo_must_be_listed(
    args: Seq<Seq<char>>,
    write_mode: bool,
    allowed: Seq<Seq<char>>,
    i: int,
)
    requires
        args.len() > 1,
        args[0] == "repo"@,
        args[1] == "view"@ || args[1] == "clone"@ || args[1] == "sync"@,
        0 <= i < args.len(),
        first_positional(args, 2, repo_value_flags()) == Some(i),
        repo_check(repo_name(args[i]), allowed) is Err,
    ensures
        gh_policy(args, write_mode, allowed) is Err,
{
    reveal_strlit("repo");
    reveal_strlit("api");
    reveal_strlit("release");
    reveal_strlit("view");
    reveal_strlit("clone");
    reveal_strlit("sync");
    reveal_strlit("auth");
    reveal_strlit("ssh-key");
    reveal_strlit("gpg-key");
    reveal_strlit("config");
    reveal_strlit("extension");
    reveal_strlit("alias");
    reveal_strlit("list");
    assert("repo"@.len() == 4 && "repo"@[0] == 'r');
    assert("auth"@.len() == 4 && "auth"@[0] == 'a');
    assert("ssh-key"@.len() == 7 && "ssh-key"@[0] == 's');
    assert("gpg-key"@.len() == 7 && "gpg-key"@[0] == 'g');
    assert("config"@.len() == 6 && "config"@[0] == 'c');
    assert("extension"@.len() == 9 && "extension"@[0] == 'e');
    assert("alias"@.len() == 5 && "alias"@[0] == 'a');
    assert("view"@.len() == 4 && "view"@[0] == 'v');
    assert("clone"@.len() == 5 && "clone"@[0] == 'c');
    assert("sync"@.len() == 4 && "sync"@[0] == 's');
    assert("list"@.len() == 4 && "list"@[0] == 'l');
    assert("api"@.len() == 3 && "api"@[0] == 'a');
    assert("release"@.len() == 7 && "release"@[0] == 'r');
    assert(is_safe_repo_action(args[1]));
    assert(!is_hard_blocked(args[0]));
}

/// Without the write flag every action that changes a release (`create`,
/// `upload`, `delete`, `edit`) is refused, whatever else the command holds,
/// and the refusal names the action.
pub proof fn lemma_release_changes_need_write(args: Seq<Seq<char>>, allowed: Seq<Seq<char>>)
    requires
        args.len() > 1,
        args[0] == "release"@,
        args[1] == "create"@ || args[1] == "upload"@ || args[1] == "delete"@ || args[1] == "edit"@,
    ensures
        gh_policy(args, false, allowed) == Err::<(), Seq<char>>(
            "'release "@ + args[1] + "' requires the --write flag"@,
        ),
{
    reveal_strlit("release");
    reveal_strlit("repo");
    reveal_strlit("auth");
    reveal_strlit("ssh-key");
    reveal_strlit("gpg-key");
    reveal_strlit("config");
    reveal_strlit("extension");
    reveal_strlit("alias");
    assert("release"@.len() == 7 && "release"@[0] == 'r' && "release"@[1] == 'e');
    assert("repo"@.len() == 4);
    assert("auth"@.len() == 4);
    assert("ssh-key"@.len() == 7 && "ssh-key"@[0] == 's');
    assert("gpg-key"@.len() == 7 && "gpg-key"@[0] == 'g');
    assert("config"@.len() == 6);
    assert("extension"@.len() == 9);
    assert("alias"@.len() == 5);
    assert(!is_hard_blocked(args[0]));
    assert(arg_or_empty(args, 1) == args[1]);
}

// ── Replies of the proxy ──────────────────────────────────────────────────────

/// A reply of the `gh` proxy: the output and exit code it hands back.
#[derive(Debug, Clone)]
pub struct GhReply {
    pub stdout: String,
    pub stderr: String,
    pub exit_code: i32,
}

/// The reply to a refused request, or none when `gh` may run: a refusal
/// has no output, `gh: <reason>` and a newline on stderr, and exit code 1.
pub fn refusal_reply(args: &[String], write_mode: bool, allowed_repos: &[String]) -> (r: Option<
    GhReply,
>)
    ensures
        gh_policy(string_views(args@), write_mode, string_views(allowed_repos@)) is Ok <==> r is None,
        gh_policy(string_views(args@), write_mode, string_views(allowed_repos@)) matches Err(
            reason,
        ) ==> r matches Some(rep) && rep.stdout@ == Seq::<char>::empty() && rep.stderr@ == "gh: "@
            + reason + "\n"@ && rep.exit_code == 1,
{
    match check_allowed(args, write_mode, allowed_repos) {
        Ok(()) => None,
        Err(reason) => {
            let rv = chars_of(reason.as_str());
            Some(GhReply { stdout: String::new(), stderr: concat3("gh: ", &rv, "\n"), exit_code: 1 })
        },
    }
}

} // verus!
