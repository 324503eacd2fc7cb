//! Decisions of the sandbox launcher: which GitHub repositories the working
//! copy's remotes belong to, which repositories the `gh` proxy serves and how
//! it is started, and the git configuration and environment values the
//! sandbox gets.
use vstd::prelude::*;

use crate::text::{chars_of, copy_range, has_prefix, has_suffix, starts_with, string_of, string_views, trim, trim_bounds};

verus! {

broadcast use vstd::seq_lib::group_seq_properties;

/// `s` with every trailing `.git` removed (`str::trim_end_matches(".git")`).
pub open spec fn strip_git_suffixes(s: Seq<char>) -> Seq<char>
    decreases s.len(),
{
    if has_suffix(s, ".git"@) && s.len() >= 4 {
        strip_git_suffixes(s.take(s.len() - 4))
    } else {
        s
    }
}

/// The `owner/repo` slug of a GitHub remote URL: the URL trimmed, after its
/// `git@github.com:` or `https://github.com/` prefix, with trailing `.git`
/// removed; none for another host.
pub open spec fn github_slug_spec(url: Seq<char>) -> Option<Seq<char>> {
    let u = trim(url);
    if has_prefix(u, "git@github.com:"@) {
        Some(strip_git_suffixes(u.skip(15)))
    } else if has_prefix(u, "https://github.com/"@) {
        Some(strip_git_suffixes(u.skip(19)))
    } else {
        None
    }
}

fn strip_git(v: &Vec<char>) -> (r: Vec<char>)
    ensures
        r@ == strip_git_suffixes(v@),
{
    let suffix = chars_of(".git");
    proof {
        reveal_strlit(".git");
    }
    let mut n: usize = v.len();
    loop
        invariant
            n <= v.len(),
            suffix@ == ".git"@,
            ".git"@.len() == 4,
            strip_git_suffixes(v@) == strip_git_suffixes(v@.take(n as int)),
        decreases n,
    {
        let cur = copy_range(v, 0, n);
        assert(cur@ =~= v@.take(n as int));
        if n >= 4 && crate::text::ends_with(&cur, &suffix) {
            assert(cur@.take(n - 4) =~= v@.take(n - 4));
            n = n - 4;
        } else {
            return cur;
        }
    }
}

/// The `owner/repo` slug of the GitHub remote URL `url` (the output of
/// `git remote get-url origin`), if it is a GitHub URL.
pub fn github_slug(url: &str) -> (r: Option<String>)
    ensures
        r matches Some(s) ==> github_slug_spec(url@) == Some(s@),
        r is None ==> github_slug_spec(url@) is None,
{
    let v = chars_of(url);
    let (a, b) = trim_bounds(&v);
    let u = copy_range(&v, a, b);
    let ssh = chars_of("git@github.com:");
    let https = chars_of("https://github.com/");
    proof {
        reveal_strlit("git@github.com:");
        reveal_strlit("https://github.com/");
    }
    if starts_with(&u, &ssh) {
        let rest = copy_range(&u, 15, u.len());
        assert(rest@ =~= u@.skip(15));
        let s = strip_git(&rest);
        Some(string_of(&s))
    } else if starts_with(&u, &https) {
        let rest = copy_range(&u, 19, u.len());
        assert(rest@ =~= u@.skip(19));
        let s = strip_git(&rest);
        Some(string_of(&s))
    } else {
        None
    }
}

/// The arguments of the `gh` proxy server: its socket, `--write` when write
/// access is granted, and one `--repo` per allowed repository.
pub open spec fn gh_server_args_spec(socket: Seq<char>, write_mode: bool, repos: Seq<Seq<char>>) -> Seq<
    Seq<char>,
> {
    seq!["--socket"@, socket] + (if write_mode {
        seq!["--write"@]
    } else {
        Seq::empty()
    }) + Seq::new(2 * repos.len(), |i: int| if i % 2 == 0 {
        "--repo"@
    } else {
        repos[i / 2]
    })
}

fn lit(s: &str) -> (r: String)
    ensures
        r@ == s@,
{
    let v = chars_of(s);
    string_of(&v)
}

/// The command-line arguments that start the `gh` proxy server.
pub fn gh_server_args(socket: &str, write_mode: bool, allowed_repos: &[String]) -> (r: Vec<String>)
    ensures
        string_views(r@) == gh_server_args_spec(socket@, write_mode, string_views(allowed_repos@)),
{
    let mut out: Vec<String> = Vec::new();
    out.push(lit("--socket"));
    out.push(lit(socket));
    if write_mode {
        out.push(lit("--write"));
    }
    let ghost head = string_views(out@);
    assert(head =~= seq!["--socket"@, socket@] + (if write_mode {
        seq!["--write"@]
    } else {
        Seq::<Seq<char>>::empty()
    }));
    let mut i: usize = 0;
    while i < allowed_repos.len()
        invariant
            i <= allowed_repos.len(),
            out.len() == head.len() + 2 * i,
            string_views(out@).take(head.len() as int) == head,
            forall|j: int|
                0 <= j < 2 * i ==> #[trigger] string_views(out@)[head.len() + j] == (if j % 2 == 0 {
                    "--repo"@
                } else {
                    string_views(allowed_repos@)[j / 2]
                }),
        decreases allowed_repos.len() - i,
    {
        let ghost before = out@;
        let r1 = lit("--repo");
        let r2 = allowed_repos[i].clone();
        out.push(r1);
        out.push(r2);
        proof {
            assert(out@[head.len() + 2 * i] == r1);
            assert(out@[head.len() + 2 * i + 1] == r2);
            assert(r2@ == string_views(allowed_repos@)[i as int]);
            assert forall|j: int| 0 <= j < 2 * (i + 1) implies #[trigger] string_views(out@)[head.len()
                + j] == (if j % 2 == 0 {
                "--repo"@
            } else {
                string_views(allowed_repos@)[j / 2]
            }) by {
                if j < 2 * i {
                    assert(out@[head.len() + j] == before[head.len() + j]);
                    assert(string_views(out@)[head.len() + j] == string_views(before)[head.len() + j]);
                } else if j == 2 * i {
                    assert(j % 2 == 0);
                    assert(string_views(out@)[head.len() + j] == r1@);
                } else {
                    assert(j == 2 * i + 1);
                    assert(j % 2 == 1);
                    assert(j / 2 == i);
                    assert(string_views(out@)[head.len() + j] == r2@);
                }
            }
            assert(string_views(out@).take(head.len() as int) =~= string_views(before).take(
                head.len() as int,
            ));
        }
        i = i + 1;
    }
    let ghost tail = Seq::new(
        2 * allowed_repos.len() as nat,
        |j: int| if j % 2 == 0 {
            "--repo"@
        } else {
            string_views(allowed_repos@)[j / 2]
        },
    );
    assert forall|x: int| 0 <= x < string_views(out@).len() implies #[trigger] string_views(out@)[x]
        == (head + tail)[x] by {
        if x < head.len() {
            assert(string_views(out@)[x] == string_views(out@).take(head.len() as int)[x]);
        } else {
            assert(string_views(out@)[head.len() + (x - head.len())] == tail[x - head.len()]);
        }
    }
    assert(string_views(out@) =~= head + tail);
    out
}


/// The tail of the sandbox's git configuration, after the identity: commits
/// and tags are not signed, GitHub credentials come from `gh`, and SSH
/// remotes on GitHub are fetched over HTTPS.
pub open spec fn gitconfig_tail() -> Seq<char> {
    "\n[commit]\n\tgpgsign = false\n[tag]\n\tgpgsign = false\n[credential \"https://github.com\"]\n\thelper = gh auth git-credential\n[url \"https://github.com/\"]\n\tinsteadOf = git@github.com:\n"@
}

/// The git configuration written for the sandbox, with the identity
/// `name` and `email`.
pub open spec fn gitconfig_spec(name: Seq<char>, email: Seq<char>) -> Seq<char> {
    "[user]\n\tname = "@ + name + "\n\temail = "@ + email + gitconfig_tail()
}

/// The git configuration written for the sandbox (see [`gitconfig_spec`]).
pub fn gitconfig_contents(name: &str, email: &str) -> (r: String)
    ensures
        r@ == gitconfig_spec(name@, email@),
{
    let mut v = chars_of("[user]\n\tname = ");
    let nv = chars_of(name);
    crate::text::extend_chars(&mut v, &nv);
    let ev_head = chars_of("\n\temail = ");
    crate::text::extend_chars(&mut v, &ev_head);
    let ev = chars_of(email);
    crate::text::extend_chars(&mut v, &ev);
    let tail = chars_of(
        "\n[commit]\n\tgpgsign = false\n[tag]\n\tgpgsign = false\n[credential \"https://github.com\"]\n\thelper = gh auth git-credential\n[url \"https://github.com/\"]\n\tinsteadOf = git@github.com:\n",
    );
    crate::text::extend_chars(&mut v, &tail);
    string_of(&v)
}

/// A value printed by `git config`: the output trimmed, none when that
/// leaves nothing.
pub open spec fn git_config_value_spec(out: Seq<char>) -> Option<Seq<char>> {
    if trim(out).len() == 0 {
        None
    } else {
        Some(trim(out))
    }
}

/// The value printed by `git config` (see [`git_config_value_spec`]).
pub fn git_config_value(out: &str) -> (r: Option<String>)
    ensures
        r matches Some(s) ==> git_config_value_spec(out@) == Some(s@),
        r is None ==> git_config_value_spec(out@) is None,
{
    let v = chars_of(out);
    let (a, b) = trim_bounds(&v);
    if a == b {
        return None;
    }
    let t = copy_range(&v, a, b);
    Some(string_of(&t))
}


/// The `owner/repo` slugs of the GitHub remotes among `urls`, in order;
/// other remotes are skipped.
pub open spec fn remote_slugs(urls: Seq<Seq<char>>) -> Seq<Seq<char>>
    decreases urls.len(),
{
    if urls.len() == 0 {
        Seq::empty()
    } else {
        match github_slug_spec(urls.last()) {
            Some(s) => remote_slugs(urls.drop_last()).push(s),
            None => remote_slugs(urls.drop_last()),
        }
    }
}

/// `xs` without repeats, each kept where it first occurs.
pub open spec fn dedup_first(xs: Seq<Seq<char>>) -> Seq<Seq<char>>
    decreases xs.len(),
{
    if xs.len() == 0 {
        Seq::empty()
    } else {
        let p = dedup_first(xs.drop_last());
        if p.contains(xs.last()) {
            p
        } else {
            p.push(xs.last())
        }
    }
}

/// The repositories the `gh` proxy may reach: the GitHub repositories of
/// every remote of the working copy, in the order of the remotes, then
/// those asked for with `--repo`; each once.
pub open spec fn allowed_repos_spec(remote_urls: Seq<Seq<char>>, asked: Seq<Seq<char>>) -> Seq<Seq<char>> {
    dedup_first(remote_slugs(remote_urls) + asked)
}

fn contains_string(v: &Vec<String>, x: &Vec<char>) -> (r: bool)
    ensures
        r == string_views(v@).contains(x@),
{
    let ghost sv = string_views(v@);
    let mut i: usize = 0;
    while i < v.len()
        invariant
            i <= v.len(),
            sv == string_views(v@),
            forall|j: int| 0 <= j < i ==> sv[j] != x@,
        decreases v.len() - i,
    {
        let c = chars_of(v[i].as_str());
        if crate::text::chars_eq(&c, x) {
            assert(sv[i as int] == x@);
            return true;
        }
        i = i + 1;
    }
    false
}

/// The repositories the `gh` proxy may reach (see [`allowed_repos_spec`]);
/// `remote_urls` are the URLs of the working copy's remotes.
pub fn allowed_repos(remote_urls: &[String], asked: &[String]) -> (r: Vec<String>)
    ensures
        string_views(r@) == allowed_repos_spec(string_views(remote_urls@), string_views(asked@)),
{
    let ghost uv = string_views(remote_urls@);
    let mut all: Vec<String> = Vec::new();
    let mut i: usize = 0;
    assert(string_views(all@) =~= remote_slugs(uv.take(0)));
    while i < remote_urls.len()
        invariant
            i <= remote_urls.len(),
            uv == string_views(remote_urls@),
            string_views(all@) == remote_slugs(uv.take(i as int)),
        decreases remote_urls.len() - i,
    {
        assert(uv.take(i + 1).drop_last() =~= uv.take(i as int));
        assert(uv.take(i + 1).last() == remote_urls@[i as int]@);
        match github_slug(remote_urls[i].as_str()) {
            Some(s) => {
                proof {
                    crate::text::lemma_string_views_push(all@, s);
                }
                all.push(s);
            },
            None => {},
        }
        i = i + 1;
    }
    assert(uv.take(i as int) =~= uv);
    let ghost slugs = string_views(all@);
    let ghost av = string_views(asked@);
    let mut k: usize = 0;
    while k < asked.len()
        invariant
            k <= asked.len(),
            av == string_views(asked@),
            string_views(all@) == slugs + av.take(k as int),
        decreases asked.len() - k,
    {
        let c = asked[k].clone();
        proof {
            crate::text::lemma_string_views_push(all@, c);
            assert(slugs + av.take(k + 1) =~= (slugs + av.take(k as int)).push(av[k as int]));
        }
        all.push(c);
        k = k + 1;
    }
    assert(av.take(k as int) =~= av);
    let ghost xs = string_views(all@);
    let mut out: Vec<String> = Vec::new();
    let mut j: usize = 0;
    assert(string_views(out@) =~= dedup_first(xs.take(0)));
    while j < all.len()
        invariant
            j <= all.len(),
            xs == string_views(all@),
            string_views(out@) == dedup_first(xs.take(j as int)),
        decreases all.len() - j,
    {
        assert(xs.take(j + 1).drop_last() =~= xs.take(j as int));
        assert(xs.take(j + 1).last() == all@[j as int]@);
        let cv = chars_of(all[j].as_str());
        if !contains_string(&out, &cv) {
            let c = all[j].clone();
            proof {
                crate::text::lemma_string_views_push(out@, c);
            }
            out.push(c);
        }
        j = j + 1;
    }
    assert(xs.take(j as int) =~= xs);
    out
}

/// What [`dedup_first`] keeps: exactly the members of `xs`, none twice.
proof fn lemma_dedup_first(xs: Seq<Seq<char>>)
    ensures
        forall|x: Seq<char>| dedup_first(xs).contains(x) <==> xs.contains(x),
        forall|i: int, j: int|
            0 <= i < j < dedup_first(xs).len() ==> dedup_first(xs)[i] != dedup_first(xs)[j],
    decreases xs.len(),
{
    if xs.len() > 0 {
        let prev = xs.drop_last();
        lemma_dedup_first(prev);
        let p = dedup_first(prev);
        let d = dedup_first(xs);
        assert forall|x: Seq<char>| d.contains(x) <==> xs.contains(x) by {
            if xs.contains(x) && !d.contains(x) {
                let k = choose|k: int| 0 <= k < xs.len() && xs[k] == x;
                if k < xs.len() - 1 {
                    assert(prev[k] == x);
                    assert(prev.contains(x));
                    assert(p.contains(x));
                    let m = choose|m: int| 0 <= m < p.len() && p[m] == x;
                    assert(d[m] == x);
                } else {
                    if p.contains(x) {
                        let m = choose|m: int| 0 <= m < p.len() && p[m] == x;
                        assert(d[m] == x);
                    } else {
                        assert(d[d.len() - 1] == x);
                    }
                }
            }
            if d.contains(x) && !xs.contains(x) {
                let m = choose|m: int| 0 <= m < d.len() && d[m] == x;
                if m < p.len() {
                    assert(p[m] == x);
                    assert(p.contains(x));
                    assert(prev.contains(x));
                    let k = choose|k: int| 0 <= k < prev.len() && prev[k] == x;
                    assert(xs[k] == x);
                } else {
                    assert(x == xs.last());
                    assert(xs[xs.len() - 1] == x);
                }
            }
        }
        assert forall|i: int, j: int| 0 <= i < j < d.len() implies d[i] != d[j] by {
            if j >= p.len() {
                assert(d[j] == xs.last());
                assert(!p.contains(xs.last()));
                assert(d[i] == p[i]);
            } else {
                assert(d[i] == p[i] && d[j] == p[j]);
            }
        }
    }
}

/// Every GitHub remote's slug is among `remote_slugs`, and nothing else.
proof fn lemma_remote_slugs(urls: Seq<Seq<char>>)
    ensures
        forall|k: int|
            0 <= k < urls.len() ==> (github_slug_spec(#[trigger] urls[k]) matches Some(s)
                ==> remote_slugs(urls).contains(s)),
        forall|x: Seq<char>|
            remote_slugs(urls).contains(x) ==> exists|k: int|
                0 <= k < urls.len() && github_slug_spec(#[trigger] urls[k]) == Some(x),
    decreases urls.len(),
{
    if urls.len() > 0 {
        let prev = urls.drop_last();
        lemma_remote_slugs(prev);
        let p = remote_slugs(prev);
        let r = remote_slugs(urls);
        assert forall|k: int| 0 <= k < urls.len() implies (github_slug_spec(#[trigger] urls[k]) matches Some(
            s,
        ) ==> r.contains(s)) by {
            if let Some(s) = github_slug_spec(urls[k]) {
                if k < urls.len() - 1 {
                    assert(prev[k] == urls[k]);
                    assert(p.contains(s));
                    let m = choose|m: int| 0 <= m < p.len() && p[m] == s;
                    assert(r[m] == s);
                } else {
                    assert(urls[k] == urls.last());
                    assert(r[r.len() - 1] == s);
                }
            }
        }
        assert forall|x: Seq<char>| r.contains(x) implies exists|k: int|
            0 <= k < urls.len() && github_slug_spec(#[trigger] urls[k]) == Some(x) by {
            let m = choose|m: int| 0 <= m < r.len() && r[m] == x;
            if m < p.len() {
                assert(p[m] == x);
                assert(p.contains(x));
                let k = choose|k: int| 0 <= k < prev.len() && github_slug_spec(prev[k]) == Some(x);
                assert(urls[k] == prev[k]);
            } else {
                assert(github_slug_spec(urls[urls.len() - 1]) == Some(x));
            }
        }
    }
}

/// The `gh` proxy may reach the repository of every GitHub remote and every
/// repository asked for, nothing else, and lists none twice.
pub proof fn lemma_allowed_repos(remote_urls: Seq<Seq<char>>, asked: Seq<Seq<char>>)
    ensures
        forall|k: int|
            0 <= k < remote_urls.len() ==> (github_slug_spec(#[trigger] remote_urls[k]) matches Some(s)
                ==> allowed_repos_spec(remote_urls, asked).contains(s)),
        forall|k: int|
            0 <= k < asked.len() ==> allowed_repos_spec(remote_urls, asked).contains(#[trigger] asked[k]),
        forall|x: Seq<char>|
            allowed_repos_spec(remote_urls, asked).contains(x) ==> asked.contains(x) || exists|k: int|
                0 <= k < remote_urls.len() && github_slug_spec(#[trigger] remote_urls[k]) == Some(x),
        forall|i: int, j: int|
            0 <= i < j < allowed_repos_spec(remote_urls, asked).len() ==> allowed_repos_spec(
                remote_urls,
                asked,
            )[i] != allowed_repos_spec(remote_urls, asked)[j],
{
    let sl = remote_slugs(remote_urls);
    let all = sl + asked;
    lemma_remote_slugs(remote_urls);
    lemma_dedup_first(all);
    assert forall|k: int| 0 <= k < remote_urls.len() implies (github_slug_spec(
        #[trigger] remote_urls[k],
    ) matches Some(s) ==> allowed_repos_spec(remote_urls, asked).contains(s)) by {
        if let Some(s) = github_slug_spec(remote_urls[k]) {
            assert(sl.contains(s));
            let m = choose|m: int| 0 <= m < sl.len() && sl[m] == s;
            assert(all[m] == s);
            assert(all.contains(s));
        }
    }
    assert forall|k: int| 0 <= k < asked.len() implies allowed_repos_spec(remote_urls, asked).contains(
        #[trigger] asked[k],
    ) by {
        assert(all[sl.len() + k] == asked[k]);
        assert(all.contains(asked[k]));
    }
    assert forall|x: Seq<char>| allowed_repos_spec(remote_urls, asked).contains(x) implies asked.contains(
        x,
    ) || exists|k: int|
        0 <= k < remote_urls.len() && github_slug_spec(#[trigger] remote_urls[k]) == Some(x) by {
        assert(all.contains(x));
        let m = choose|m: int| 0 <= m < all.len() && all[m] == x;
        if m < sl.len() {
            assert(sl[m] == x);
            assert(sl.contains(x));
        } else {
            assert(asked[m - sl.len()] == x);
        }
    }
}

/// The `PATH` inside the sandbox: the home's `bin`, then the project's own
/// `PATH` from direnv when there is one.
pub open spec fn jail_path_spec(home: Seq<char>, direnv_path: Option<Seq<char>>) -> Seq<char> {
    match direnv_path {
        Some(p) => home + "/bin:"@ + p,
        None => home + "/bin"@,
    }
}

/// The `PATH` inside the sandbox (see [`jail_path_spec`]).
pub fn jail_path(home: &str, direnv_path: Option<&str>) -> (r: String)
    ensures
        r@ == jail_path_spec(
            home@,
            match direnv_path {
                Some(p) => Some(p@),
                None => None,
            },
        ),
{
    let mut v = chars_of(home);
    match direnv_path {
        Some(p) => {
            let sep = chars_of("/bin:");
            crate::text::extend_chars(&mut v, &sep);
            let pv = chars_of(p);
            crate::text::extend_chars(&mut v, &pv);
        },
        None => {
            let b = chars_of("/bin");
            crate::text::extend_chars(&mut v, &b);
        },
    }
    string_of(&v)
}

/// The Nix settings inside the sandbox: the host's `NIX_CONFIG`, if any, with
/// flakes and the `nix` command switched on after it.
pub open spec fn nix_config_spec(host: Seq<char>) -> Seq<char> {
    if host.len() == 0 {
        "extra-experimental-features = nix-command flakes"@
    } else {
        host + "\nextra-experimental-features = nix-command flakes"@
    }
}

/// The `NIX_CONFIG` inside the sandbox (see [`nix_config_spec`]); `host` is
/// the host's value, empty when unset.
pub fn nix_config(host: &str) -> (r: String)
    ensures
        r@ == nix_config_spec(host@),
{
    let mut v = chars_of(host);
    if v.len() == 0 {
        let f = chars_of("extra-experimental-features = nix-command flakes");
        return string_of(&f);
    }
    let f = chars_of("\nextra-experimental-features = nix-command flakes");
    crate::text::extend_chars(&mut v, &f);
    string_of(&v)
}

} // verus!
