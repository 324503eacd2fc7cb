//! The `ax` sandbox: the `bwrap` command line that runs `ax` with the Nix
//! store, the working tree and a curated environment, and nothing else of
//! the host.
use vstd::prelude::*;

use crate::jail::{jail_path_spec, nix_config, nix_config_spec};
use crate::store::{join_path, path_join};
use crate::text::{
    chars_eq, chars_of, extend_chars, find_value, first_value, pair_views, string_of, string_opt,
    string_views,
};

verus! {

broadcast use vstd::seq_lib::group_seq_properties;

// ── What the launcher knows of the host ───────────────────────────────────────

/// What the launcher found on the host before building the command line.
#[derive(Debug, Clone)]
pub struct HostFacts {
    /// `$HOME`.
    pub home: String,
    /// The working directory.
    pub cwd: String,
    /// The directory of prebuilt tools mounted as `~/bin`.
    pub bin_dir: String,
    /// The Nix daemon socket.
    pub nix_socket: String,
    /// The paths that exist, among those [`ax_jail_probes`] lists.
    pub present: Vec<String>,
    /// The host environment.
    pub env: Vec<(String, String)>,
    /// The variables direnv exports for the working directory.
    pub direnv: Vec<(String, String)>,
    /// The root of the git worktree holding the working directory and the
    /// repository's common git directory, when there is one.
    pub git: Option<(String, String)>,
}

/// What the user asked of the sandbox.
#[derive(Debug, Clone)]
pub struct AxJailOptions {
    /// Paths mounted read-only at their own place.
    pub ro_paths: Vec<String>,
    /// Paths mounted read-write at their own place.
    pub rw_paths: Vec<String>,
    /// Mount every worktree of the repository, not only the current one.
    pub all_worktrees: bool,
    /// The arguments handed to `ax`.
    pub ax_args: Vec<String>,
}

/// `p` exists on the host.
pub open spec fn on_host(h: HostFacts, p: Seq<char>) -> bool {
    string_views(h.present@).contains(p)
}

/// The value of the host variable `k`.
pub open spec fn host_var(h: HostFacts, k: Seq<char>) -> Option<Seq<char>> {
    first_value(pair_views(h.env@), k)
}

pub(crate) fn exists_on_host(h: &HostFacts, p: &Vec<char>) -> (r: bool)
    ensures
        r == on_host(*h, p@),
{
    let ghost pv = string_views(h.present@);
    let mut i: usize = 0;
    while i < h.present.len()
        invariant
            i <= h.present.len(),
            pv == string_views(h.present@),
            forall|j: int| 0 <= j < i ==> pv[j] != p@,
        decreases h.present.len() - i,
    {
        let c = chars_of(h.present[i].as_str());
        if chars_eq(&c, p) {
            assert(pv[i as int] == p@);
            return true;
        }
        i = i + 1;
    }
    false
}

// ── Paths ─────────────────────────────────────────────────────────────────────

/// What `Path::parent` gives for the path `p`: the path without its last
/// component; none for a root or the empty path.
pub uninterp spec fn path_parent(p: Seq<char>) -> Option<Seq<char>>;

/// Whether `Path::starts_with` holds: the components of `base` begin those
/// of `p`.
pub uninterp spec fn path_starts_with(p: Seq<char>, base: Seq<char>) -> bool;

/// Calls `std::path::Path::parent` on `p`. Named [`path_parent`]; the rules
/// by which a path is cut into components are not restated here.
#[verifier::external_body]
pub(crate) fn parent_of(p: &str) -> (r: Option<String>)
    ensures
        string_opt(r) == path_parent(p@),
{
    std::path::Path::new(p).parent().map(|q| q.to_string_lossy().into_owned())
}

/// Calls `std::path::Path::starts_with` on `p` and `base`. Named
/// [`path_starts_with`]; the component rules are not restated here.
#[verifier::external_body]
fn path_begins_with(p: &str, base: &str) -> (r: bool)
    ensures
        r == path_starts_with(p@, base@),
{
    std::path::Path::new(p).starts_with(base)
}

// ── Building the command line ─────────────────────────────────────────────────

pub(crate) fn lit(s: &str) -> (r: String)
    ensures
        r@ == s@,
{
    let v = chars_of(s);
    string_of(&v)
}

pub(crate) fn push_one(out: &mut Vec<String>, a: String)
    ensures
        string_views(final(out)@) == string_views(old(out)@).push(a@),
{
    proof {
        crate::text::lemma_string_views_push(out@, a);
    }
    out.push(a);
}

pub(crate) fn push_three(out: &mut Vec<String>, a: String, b: String, c: String)
    ensures
        string_views(final(out)@) == string_views(old(out)@) + seq![a@, b@, c@],
{
    let ghost before = string_views(out@);
    push_one(out, a);
    push_one(out, b);
    push_one(out, c);
    assert(before.push(a@).push(b@).push(c@) =~= before + seq![a@, b@, c@]);
}

pub(crate) fn append_all(out: &mut Vec<String>, xs: &Vec<String>)
    ensures
        string_views(final(out)@) == string_views(old(out)@) + string_views(xs@),
{
    let ghost before = string_views(out@);
    let ghost xv = string_views(xs@);
    let mut i: usize = 0;
    assert(before + xv.take(0) =~= before);
    while i < xs.len()
        invariant
            i <= xs.len(),
            xv == string_views(xs@),
            string_views(out@) == before + xv.take(i as int),
        decreases xs.len() - i,
    {
        let x = xs[i].clone();
        push_one(out, x);
        assert(before + xv.take(i + 1) =~= (before + xv.take(i as int)).push(xv[i as int]));
        i = i + 1;
    }
    assert(xv.take(i as int) =~= xv);
}

/// The host paths mounted read-only at their own place when they exist.
pub open spec fn system_paths() -> Seq<Seq<char>> {
    seq![
        "/etc/static"@,
        "/etc/nix"@,
        "/nix/var/nix/profiles"@,
        "/run/current-system"@,
        "/etc/ssl"@,
        "/etc/ca-certificates"@,
        "/etc/pki/tls"@,
        "/etc/resolv.conf"@,
        "/etc/hosts"@,
        "/etc/nsswitch.conf"@,
        "/etc/localtime"@,
        "/etc/passwd"@,
        "/etc/group"@,
    ]
}

/// A read-only mount of each of `ps` that exists.
pub open spec fn ro_binds(h: HostFacts, ps: Seq<Seq<char>>) -> Seq<Seq<char>>
    decreases ps.len(),
{
    if ps.len() == 0 {
        Seq::empty()
    } else {
        ro_binds(h, ps.drop_last()) + if on_host(h, ps.last()) {
            seq!["--ro-bind"@, ps.last(), ps.last()]
        } else {
            Seq::empty()
        }
    }
}

/// Fresh namespaces but the network's, and the virtual file systems.
pub open spec fn namespace_args() -> Seq<Seq<char>> {
    seq![
        "--unshare-all"@,
        "--share-net"@,
        "--proc"@,
        "/proc"@,
        "--dev"@,
        "/dev"@,
        "--tmpfs"@,
        "/tmp"@,
    ]
}

/// The Nix store read-only, the Nix daemon's socket when it exists, and
/// the system configuration.
pub open spec fn nix_mounts(h: HostFacts) -> Seq<Seq<char>> {
    seq!["--ro-bind"@, "/nix"@, "/nix"@] + (if on_host(h, h.nix_socket@) {
        seq!["--bind"@, h.nix_socket@, h.nix_socket@]
    } else {
        Seq::empty()
    }) + ro_binds(h, system_paths())
}

/// Namespaces, virtual file systems, the Nix store and daemon, and the
/// system configuration.
pub open spec fn base_mounts(h: HostFacts) -> Seq<Seq<char>> {
    namespace_args() + nix_mounts(h)
}

pub(crate) fn system_path_list() -> (r: Vec<&'static str>)
    ensures
        crate::gh_policy::str_views(r@) == system_paths(),
{
    let v = vec![
        "/etc/static",
        "/etc/nix",
        "/nix/var/nix/profiles",
        "/run/current-system",
        "/etc/ssl",
        "/etc/ca-certificates",
        "/etc/pki/tls",
        "/etc/resolv.conf",
        "/etc/hosts",
        "/etc/nsswitch.conf",
        "/etc/localtime",
        "/etc/passwd",
        "/etc/group",
    ];
    assert(crate::gh_policy::str_views(v@) =~= system_paths());
    v
}

pub(crate) fn push_namespace_args(out: &mut Vec<String>)
    ensures
        string_views(final(out)@) == string_views(old(out)@) + namespace_args(),
{
    let ghost before = string_views(out@);
    push_one(out, lit("--unshare-all"));
    push_one(out, lit("--share-net"));
    push_one(out, lit("--proc"));
    push_one(out, lit("/proc"));
    push_one(out, lit("--dev"));
    push_one(out, lit("/dev"));
    push_one(out, lit("--tmpfs"));
    push_one(out, lit("/tmp"));
    assert(string_views(out@) =~= before + namespace_args());
}

pub(crate) fn push_nix_mounts(out: &mut Vec<String>, h: &HostFacts)
    ensures
        string_views(final(out)@) == string_views(old(out)@) + nix_mounts(*h),
{
    let ghost before = string_views(out@);
    push_three(out, lit("--ro-bind"), lit("/nix"), lit("/nix"));
    let nix = chars_of(h.nix_socket.as_str());
    if exists_on_host(h, &nix) {
        push_three(out, lit("--bind"), h.nix_socket.clone(), h.nix_socket.clone());
    }
    let ghost head = string_views(out@);
    let paths = system_path_list();
    let ghost sp = system_paths();
    let mut i: usize = 0;
    assert(head + ro_binds(*h, sp.take(0)) =~= head);
    while i < paths.len()
        invariant
            i <= paths.len(),
            sp == system_paths(),
            crate::gh_policy::str_views(paths@) == sp,
            string_views(out@) == head + ro_binds(*h, sp.take(i as int)),
        decreases paths.len() - i,
    {
        let p = chars_of(paths[i]);
        assert(p@ == sp[i as int]);
        assert(sp.take(i + 1).drop_last() =~= sp.take(i as int));
        if exists_on_host(h, &p) {
            push_three(out, lit("--ro-bind"), lit(paths[i]), lit(paths[i]));
            assert(head + ro_binds(*h, sp.take(i + 1)) =~= head + ro_binds(*h, sp.take(i as int))
                + seq!["--ro-bind"@, sp[i as int], sp[i as int]]);
        } else {
            assert(head + ro_binds(*h, sp.take(i + 1)) =~= head + ro_binds(*h, sp.take(i as int)));
        }
        i = i + 1;
    }
    assert(sp.take(i as int) =~= sp);
    assert(string_views(out@) =~= before + nix_mounts(*h));
}

fn base_mount_args(h: &HostFacts) -> (r: Vec<String>)
    ensures
        string_views(r@) == base_mounts(*h),
{
    let mut out: Vec<String> = Vec::new();
    push_namespace_args(&mut out);
    push_nix_mounts(&mut out, h);
    assert(string_views(out@) =~= base_mounts(*h));
    out
}

/// The sandbox's home: an empty file system with the tools as `~/bin`, a
/// `/bin/sh`, the git identity and SSH host keys read-only, the SSH agent
/// socket when there is one, and `ax`'s own state directory read-write.
pub open spec fn home_mounts(h: HostFacts) -> Seq<Seq<char>> {
    let home = h.home@;
    let gitconfig = path_join(home, ".gitconfig"@);
    let config = path_join(home, ".config"@);
    let git_cfg = path_join(config, "git"@);
    let ssh = path_join(home, ".ssh"@);
    let known = path_join(ssh, "known_hosts"@);
    let ax = path_join(home, ".ax"@);
    seq![
        "--tmpfs"@,
        home,
        "--ro-bind"@,
        h.bin_dir@,
        path_join(home, "bin"@),
        "--symlink"@,
        home + "/bin/bash"@,
        "/bin/sh"@,
    ] + (if on_host(h, gitconfig) {
        seq!["--ro-bind"@, gitconfig, gitconfig]
    } else {
        Seq::empty()
    }) + (if on_host(h, git_cfg) {
        seq!["--dir"@, config, "--ro-bind"@, git_cfg, git_cfg]
    } else {
        Seq::empty()
    }) + (if on_host(h, known) {
        seq!["--dir"@, ssh, "--ro-bind"@, known, known]
    } else {
        Seq::empty()
    }) + (match host_var(h, "SSH_AUTH_SOCK"@) {
        Some(sock) => if on_host(h, sock) {
            seq!["--bind"@, sock, sock]
        } else {
            Seq::empty()
        },
        None => Seq::empty(),
    }) + seq!["--bind"@, ax, ax]
}

pub(crate) fn concat(a: &str, b: &str) -> (r: String)
    ensures
        r@ == a@ + b@,
{
    let mut v = chars_of(a);
    let w = chars_of(b);
    extend_chars(&mut v, &w);
    string_of(&v)
}

fn home_mount_args(h: &HostFacts) -> (r: Vec<String>)
    ensures
        string_views(r@) == home_mounts(*h),
{
    let home = h.home.as_str();
    let gitconfig = join_path(home, ".gitconfig");
    let config = join_path(home, ".config");
    let git_cfg = join_path(config.as_str(), "git");
    let ssh = join_path(home, ".ssh");
    let known = join_path(ssh.as_str(), "known_hosts");
    let ax = join_path(home, ".ax");
    let mut out: Vec<String> = Vec::new();
    push_one(&mut out, lit("--tmpfs"));
    push_one(&mut out, h.home.clone());
    push_three(&mut out, lit("--ro-bind"), h.bin_dir.clone(), join_path(home, "bin"));
    push_three(&mut out, lit("--symlink"), concat(home, "/bin/bash"), lit("/bin/sh"));
    if exists_on_host(h, &chars_of(gitconfig.as_str())) {
        push_three(&mut out, lit("--ro-bind"), gitconfig.clone(), gitconfig.clone());
    }
    if exists_on_host(h, &chars_of(git_cfg.as_str())) {
        push_one(&mut out, lit("--dir"));
        push_one(&mut out, config.clone());
        push_three(&mut out, lit("--ro-bind"), git_cfg.clone(), git_cfg.clone());
    }
    if exists_on_host(h, &chars_of(known.as_str())) {
        push_one(&mut out, lit("--dir"));
        push_one(&mut out, ssh.clone());
        push_three(&mut out, lit("--ro-bind"), known.clone(), known.clone());
    }
    match find_value(h.env.as_slice(), "SSH_AUTH_SOCK") {
        Some(sock) => {
            if exists_on_host(h, &chars_of(sock.as_str())) {
                push_three(&mut out, lit("--bind"), sock.clone(), sock.clone());
            }
        },
        None => {},
    }
    push_three(&mut out, lit("--bind"), ax.clone(), ax.clone());
    assert(string_views(out@) =~= home_mounts(*h));
    out
}


/// A `--dir` creating the parent of `p`, when it has one.
pub open spec fn dir_for(p: Seq<char>) -> Seq<Seq<char>> {
    match path_parent(p) {
        Some(q) => seq!["--dir"@, q],
        None => Seq::empty(),
    }
}

/// The directory mounted as the working tree: with `all_worktrees`, the
/// parent of the common git directory (where every worktree lives);
/// otherwise, or when that has no parent, the worktree root; outside git,
/// the working directory.
pub open spec fn bind_root(h: HostFacts, all_worktrees: bool) -> Seq<char> {
    let all_root = if all_worktrees {
        match h.git {
            Some(g) => path_parent(g.1@),
            None => None,
        }
    } else {
        None
    };
    match all_root {
        Some(r) => r,
        None => match h.git {
            Some(g) => g.0@,
            None => h.cwd@,
        },
    }
}

/// The working tree read-write; the common git directory too when it lies
/// outside the worktree; the git hooks hidden under an empty file system,
/// so that nothing run in the sandbox can plant code that the host runs
/// later; and, with `mask_config`, the shared git configuration read-only.
pub open spec fn worktree_mounts_with(h: HostFacts, all_worktrees: bool, mask_config: bool) -> Seq<
    Seq<char>,
> {
    let root = bind_root(h, all_worktrees);
    dir_for(root) + seq!["--bind"@, root, root] + match h.git {
        None => Seq::empty(),
        Some(g) => {
            let wt = g.0@;
            let cd = g.1@;
            let config = path_join(cd, "config"@);
            (if !all_worktrees && !path_starts_with(cd, wt) {
                dir_for(cd) + seq!["--bind"@, cd, cd]
            } else {
                Seq::empty()
            }) + seq!["--tmpfs"@, path_join(cd, "hooks"@)] + (if mask_config && on_host(h, config) {
                seq!["--ro-bind"@, config, config]
            } else {
                Seq::empty()
            })
        },
    }
}

/// The working-tree mounts of the `ax` sandbox, which masks the shared git
/// configuration too (see [`worktree_mounts_with`]).
pub open spec fn worktree_mounts(h: HostFacts, all_worktrees: bool) -> Seq<Seq<char>> {
    worktree_mounts_with(h, all_worktrees, true)
}

pub(crate) fn push_dir_for(out: &mut Vec<String>, p: &str)
    ensures
        string_views(final(out)@) == string_views(old(out)@) + dir_for(p@),
{
    match parent_of(p) {
        Some(q) => {
            let ghost before = string_views(out@);
            push_one(out, lit("--dir"));
            push_one(out, q);
            assert(before.push("--dir"@).push(q@) =~= before + dir_for(p@));
        },
        None => {
            assert(string_views(out@) + dir_for(p@) =~= string_views(out@));
        },
    }
}

pub(crate) fn worktree_mount_args(h: &HostFacts, all_worktrees: bool, mask_config: bool) -> (r: Vec<String>)
    ensures
        string_views(r@) == worktree_mounts_with(*h, all_worktrees, mask_config),
{
    let all_root: Option<String> = if all_worktrees {
        match &h.git {
            Some(g) => parent_of(g.1.as_str()),
            None => None,
        }
    } else {
        None
    };
    let root: String = match all_root {
        Some(r) => r,
        None => match &h.git {
            Some(g) => g.0.clone(),
            None => h.cwd.clone(),
        },
    };
    assert(root@ == bind_root(*h, all_worktrees));
    let mut out: Vec<String> = Vec::new();
    push_dir_for(&mut out, root.as_str());
    push_three(&mut out, lit("--bind"), root.clone(), root.clone());
    match &h.git {
        None => {
            assert(string_views(out@) =~= worktree_mounts_with(*h, all_worktrees, mask_config));
        },
        Some(g) => {
            let wt = g.0.as_str();
            let cd = g.1.as_str();
            if !all_worktrees && !path_begins_with(cd, wt) {
                push_dir_for(&mut out, cd);
                push_three(&mut out, lit("--bind"), g.1.clone(), g.1.clone());
            }
            push_one(&mut out, lit("--tmpfs"));
            push_one(&mut out, join_path(cd, "hooks"));
            let config = join_path(cd, "config");
            if mask_config && exists_on_host(h, &chars_of(config.as_str())) {
                push_three(&mut out, lit("--ro-bind"), config.clone(), config.clone());
            }
            assert(string_views(out@) =~= worktree_mounts_with(*h, all_worktrees, mask_config));
        },
    }
    out
}

/// A mount of each of `paths` at its own place with `flag`, each after a
/// `--dir` creating its parent.
pub open spec fn extra_mounts(flag: Seq<char>, paths: Seq<Seq<char>>) -> Seq<Seq<char>>
    decreases paths.len(),
{
    if paths.len() == 0 {
        Seq::empty()
    } else {
        extra_mounts(flag, paths.drop_last()) + dir_for(paths.last()) + seq![
            flag,
            paths.last(),
            paths.last(),
        ]
    }
}

pub(crate) fn extra_mount_args(out: &mut Vec<String>, flag: &str, paths: &[String])
    ensures
        string_views(final(out)@) == string_views(old(out)@) + extra_mounts(flag@, string_views(paths@)),
{
    let ghost before = string_views(out@);
    let ghost pv = string_views(paths@);
    let mut i: usize = 0;
    assert(before + extra_mounts(flag@, pv.take(0)) =~= before);
    while i < paths.len()
        invariant
            i <= paths.len(),
            pv == string_views(paths@),
            string_views(out@) == before + extra_mounts(flag@, pv.take(i as int)),
        decreases paths.len() - i,
    {
        let p = paths[i].as_str();
        assert(pv.take(i + 1).drop_last() =~= pv.take(i as int));
        assert(pv[i as int] == p@);
        push_dir_for(out, p);
        push_three(out, lit(flag), paths[i].clone(), paths[i].clone());
        assert(before + extra_mounts(flag@, pv.take(i + 1)) =~= before + extra_mounts(flag@, pv.take(i as int))
            + dir_for(p@) + seq![flag@, p@, p@]);
        i = i + 1;
    }
    assert(pv.take(i as int) =~= pv);
}


// ── The environment ───────────────────────────────────────────────────────────

/// The host variables handed on under their own name when set, in order.
pub open spec fn passed(h: HostFacts, ks: Seq<Seq<char>>) -> Seq<(Seq<char>, Seq<char>)>
    decreases ks.len(),
{
    if ks.len() == 0 {
        Seq::empty()
    } else {
        passed(h, ks.drop_last()) + match host_var(h, ks.last()) {
            Some(v) => seq![(ks.last(), v)],
            None => Seq::empty(),
        }
    }
}

/// The terminal's variables.
pub open spec fn terminal_vars() -> Seq<Seq<char>> {
    seq!["TERM"@, "COLORTERM"@, "TERM_PROGRAM"@, "TERM_PROGRAM_VERSION"@]
}

/// The locale's variables.
pub open spec fn locale_vars() -> Seq<Seq<char>> {
    seq!["LANG"@, "LC_ALL"@, "LC_CTYPE"@, "LC_MESSAGES"@, "LC_COLLATE"@, "LC_TIME"@]
}

/// The HTTP proxy settings.
pub open spec fn proxy_vars() -> Seq<Seq<char>> {
    seq!["HTTP_PROXY"@, "HTTPS_PROXY"@, "NO_PROXY"@, "http_proxy"@, "https_proxy"@, "no_proxy"@]
}

/// The settings of `ax` and the gateway.
pub open spec fn agentix_vars() -> Seq<Seq<char>> {
    seq!["AGENTIX_MODEL"@, "AGENTIX_GATEWAY_URL"@, "AGENTIX_CLOUD_MODEL"@]
}

/// The git identity overrides.
pub open spec fn git_identity_vars() -> Seq<Seq<char>> {
    seq!["GIT_AUTHOR_NAME"@, "GIT_AUTHOR_EMAIL"@, "GIT_COMMITTER_NAME"@, "GIT_COMMITTER_EMAIL"@]
}

/// The certificate bundle: the host's `NIX_SSL_CERT_FILE` when set, else the
/// first of the usual bundles that exists, as both `NIX_SSL_CERT_FILE` and
/// `SSL_CERT_FILE`.
pub open spec fn cert_settings(h: HostFacts) -> Seq<(Seq<char>, Seq<char>)> {
    match host_var(h, "NIX_SSL_CERT_FILE"@) {
        Some(c) => seq![("NIX_SSL_CERT_FILE"@, c), ("SSL_CERT_FILE"@, c)],
        None => if on_host(h, "/etc/ssl/certs/ca-bundle.crt"@) {
            seq![
                ("NIX_SSL_CERT_FILE"@, "/etc/ssl/certs/ca-bundle.crt"@),
                ("SSL_CERT_FILE"@, "/etc/ssl/certs/ca-bundle.crt"@),
            ]
        } else if on_host(h, "/etc/ssl/certs/ca-certificates.crt"@) {
            seq![
                ("NIX_SSL_CERT_FILE"@, "/etc/ssl/certs/ca-certificates.crt"@),
                ("SSL_CERT_FILE"@, "/etc/ssl/certs/ca-certificates.crt"@),
            ]
        } else {
            Seq::empty()
        },
    }
}

/// The variables direnv exports, but `PATH` (which is merged into the
/// sandbox's own).
pub open spec fn direnv_settings(ds: Seq<(Seq<char>, Seq<char>)>) -> Seq<(Seq<char>, Seq<char>)>
    decreases ds.len(),
{
    if ds.len() == 0 {
        Seq::empty()
    } else {
        direnv_settings(ds.drop_last()) + if ds.last().0 == "PATH"@ {
            Seq::empty()
        } else {
            seq![ds.last()]
        }
    }
}

/// The variables every sandbox gets: home, `PATH`, user, the Nix daemon's
/// settings and the certificate bundle.
pub open spec fn core_env(h: HostFacts) -> Seq<(Seq<char>, Seq<char>)> {
    seq![
        ("HOME"@, h.home@),
        ("PATH"@, jail_path_spec(h.home@, first_value(pair_views(h.direnv@), "PATH"@))),
        (
            "USER"@,
            match host_var(h, "USER"@) {
                Some(u) => u,
                None => "user"@,
            },
        ),
    ] + passed(h, seq!["LOGNAME"@]) + seq![
        ("NIX_REMOTE"@, "daemon"@),
        ("NIX_DAEMON_SOCKET_PATH"@, h.nix_socket@),
    ] + passed(h, seq!["NIX_PATH"@]) + seq![
        (
            "NIX_CONFIG"@,
            nix_config_spec(
                match host_var(h, "NIX_CONFIG"@) {
                    Some(c) => c,
                    None => Seq::empty(),
                },
            ),
        ),
    ] + cert_settings(h)
}

/// The host variables handed on as they are: terminal, locale, proxies,
/// `ax`'s settings, the SSH agent and the git identity.
pub open spec fn forwarded_env(h: HostFacts) -> Seq<(Seq<char>, Seq<char>)> {
    passed(h, terminal_vars()) + passed(h, locale_vars()) + passed(h, proxy_vars()) + passed(
        h,
        agentix_vars(),
    ) + passed(h, seq!["SSH_AUTH_SOCK"@]) + passed(h, git_identity_vars())
}

/// The whole environment of the sandbox, in the order it is set.
pub open spec fn env_settings(h: HostFacts) -> Seq<(Seq<char>, Seq<char>)> {
    core_env(h) + forwarded_env(h) + direnv_settings(pair_views(h.direnv@)) + seq![
        ("TMPDIR"@, "/tmp"@),
    ]
}

pub(crate) fn push_pair(out: &mut Vec<(String, String)>, k: String, v: String)
    ensures
        pair_views(final(out)@) == pair_views(old(out)@).push((k@, v@)),
{
    let ghost before = out@;
    out.push((k, v));
    assert(pair_views(out@) =~= pair_views(before).push((k@, v@)));
}

pub(crate) fn pass_vars(out: &mut Vec<(String, String)>, h: &HostFacts, keys: &Vec<&str>)
    ensures
        pair_views(final(out)@) == pair_views(old(out)@) + passed(*h, crate::gh_policy::str_views(keys@)),
{
    let ghost before = pair_views(out@);
    let ghost kv = crate::gh_policy::str_views(keys@);
    let mut i: usize = 0;
    assert(before + passed(*h, kv.take(0)) =~= before);
    while i < keys.len()
        invariant
            i <= keys.len(),
            kv == crate::gh_policy::str_views(keys@),
            pair_views(out@) == before + passed(*h, kv.take(i as int)),
        decreases keys.len() - i,
    {
        let k = keys[i];
        assert(kv.take(i + 1).drop_last() =~= kv.take(i as int));
        assert(kv[i as int] == k@);
        match find_value(h.env.as_slice(), k) {
            Some(v) => {
                let ghost vv = v@;
                push_pair(out, lit(k), v);
                assert(before + passed(*h, kv.take(i + 1)) =~= before + passed(*h, kv.take(i as int))
                    + seq![(k@, vv)]);
            },
            None => {
                assert(before + passed(*h, kv.take(i + 1)) =~= before + passed(*h, kv.take(i as int)));
            },
        }
        i = i + 1;
    }
    assert(kv.take(i as int) =~= kv);
}


pub(crate) fn push_direnv(out: &mut Vec<(String, String)>, ds: &[(String, String)])
    ensures
        pair_views(final(out)@) == pair_views(old(out)@) + direnv_settings(pair_views(ds@)),
{
    let ghost before = pair_views(out@);
    let ghost dv = pair_views(ds@);
    let mut i: usize = 0;
    assert(before + direnv_settings(dv.take(0)) =~= before);
    while i < ds.len()
        invariant
            i <= ds.len(),
            dv == pair_views(ds@),
            pair_views(out@) == before + direnv_settings(dv.take(i as int)),
        decreases ds.len() - i,
    {
        assert(dv.take(i + 1).drop_last() =~= dv.take(i as int));
        assert(dv[i as int] == (ds@[i as int].0@, ds@[i as int].1@));
        let k = chars_of(ds[i].0.as_str());
        if !crate::text::is_text(&k, "PATH") {
            push_pair(out, ds[i].0.clone(), ds[i].1.clone());
            assert(before + direnv_settings(dv.take(i + 1)) =~= before + direnv_settings(
                dv.take(i as int),
            ) + seq![dv[i as int]]);
        } else {
            assert(before + direnv_settings(dv.take(i + 1)) =~= before + direnv_settings(
                dv.take(i as int),
            ));
        }
        i = i + 1;
    }
    assert(dv.take(i as int) =~= dv);
}

pub(crate) fn push_certs(out: &mut Vec<(String, String)>, h: &HostFacts)
    ensures
        pair_views(final(out)@) == pair_views(old(out)@) + cert_settings(*h),
{
    let ghost before = pair_views(out@);
    match find_value(h.env.as_slice(), "NIX_SSL_CERT_FILE") {
        Some(c) => {
            push_pair(out, lit("NIX_SSL_CERT_FILE"), c.clone());
            push_pair(out, lit("SSL_CERT_FILE"), c);
        },
        None => {
            if exists_on_host(h, &chars_of("/etc/ssl/certs/ca-bundle.crt")) {
                push_pair(out, lit("NIX_SSL_CERT_FILE"), lit("/etc/ssl/certs/ca-bundle.crt"));
                push_pair(out, lit("SSL_CERT_FILE"), lit("/etc/ssl/certs/ca-bundle.crt"));
            } else if exists_on_host(h, &chars_of("/etc/ssl/certs/ca-certificates.crt")) {
                push_pair(out, lit("NIX_SSL_CERT_FILE"), lit("/etc/ssl/certs/ca-certificates.crt"));
                push_pair(out, lit("SSL_CERT_FILE"), lit("/etc/ssl/certs/ca-certificates.crt"));
            }
        },
    }
    assert(pair_views(out@) =~= before + cert_settings(*h));
}

pub(crate) fn push_core_env(out: &mut Vec<(String, String)>, h: &HostFacts)
    ensures
        pair_views(final(out)@) == pair_views(old(out)@) + core_env(*h),
{
    let ghost before = pair_views(out@);
    push_pair(out, lit("HOME"), h.home.clone());
    let direnv_path = find_value(h.direnv.as_slice(), "PATH");
    let path = match &direnv_path {
        Some(p) => crate::jail::jail_path(h.home.as_str(), Some(p.as_str())),
        None => crate::jail::jail_path(h.home.as_str(), None),
    };
    push_pair(out, lit("PATH"), path);
    let user = match find_value(h.env.as_slice(), "USER") {
        Some(u) => u,
        None => lit("user"),
    };
    push_pair(out, lit("USER"), user);
    let ghost s1 = pair_views(out@);
    let logname = vec!["LOGNAME"];
    assert(crate::gh_policy::str_views(logname@) =~= seq!["LOGNAME"@]);
    pass_vars(out, h, &logname);
    let ghost s2 = pair_views(out@);
    push_pair(out, lit("NIX_REMOTE"), lit("daemon"));
    push_pair(out, lit("NIX_DAEMON_SOCKET_PATH"), h.nix_socket.clone());
    let ghost s3 = pair_views(out@);
    let nix_path = vec!["NIX_PATH"];
    assert(crate::gh_policy::str_views(nix_path@) =~= seq!["NIX_PATH"@]);
    pass_vars(out, h, &nix_path);
    let ghost s4 = pair_views(out@);
    let host_config = match find_value(h.env.as_slice(), "NIX_CONFIG") {
        Some(c) => c,
        None => String::new(),
    };
    push_pair(out, lit("NIX_CONFIG"), nix_config(host_config.as_str()));
    let ghost s5 = pair_views(out@);
    push_certs(out, h);
    assert(s1 =~= before + seq![
        ("HOME"@, h.home@),
        ("PATH"@, jail_path_spec(h.home@, first_value(pair_views(h.direnv@), "PATH"@))),
        (
            "USER"@,
            match host_var(*h, "USER"@) {
                Some(u) => u,
                None => "user"@,
            },
        ),
    ]);
    assert(pair_views(out@) =~= before + core_env(*h));
}

pub(crate) fn terminal_list() -> (r: Vec<&'static str>)
    ensures
        crate::gh_policy::str_views(r@) == terminal_vars(),
{
    let v = vec!["TERM", "COLORTERM", "TERM_PROGRAM", "TERM_PROGRAM_VERSION"];
    assert(crate::gh_policy::str_views(v@) =~= terminal_vars());
    v
}

pub(crate) fn locale_list() -> (r: Vec<&'static str>)
    ensures
        crate::gh_policy::str_views(r@) == locale_vars(),
{
    let v = vec!["LANG", "LC_ALL", "LC_CTYPE", "LC_MESSAGES", "LC_COLLATE", "LC_TIME"];
    assert(crate::gh_policy::str_views(v@) =~= locale_vars());
    v
}

pub(crate) fn proxy_list() -> (r: Vec<&'static str>)
    ensures
        crate::gh_policy::str_views(r@) == proxy_vars(),
{
    let v = vec!["HTTP_PROXY", "HTTPS_PROXY", "NO_PROXY", "http_proxy", "https_proxy", "no_proxy"];
    assert(crate::gh_policy::str_views(v@) =~= proxy_vars());
    v
}

fn agentix_list() -> (r: Vec<&'static str>)
    ensures
        crate::gh_policy::str_views(r@) == agentix_vars(),
{
    let v = vec!["AGENTIX_MODEL", "AGENTIX_GATEWAY_URL", "AGENTIX_CLOUD_MODEL"];
    assert(crate::gh_policy::str_views(v@) =~= agentix_vars());
    v
}

pub(crate) fn identity_list() -> (r: Vec<&'static str>)
    ensures
        crate::gh_policy::str_views(r@) == git_identity_vars(),
{
    let v = vec!["GIT_AUTHOR_NAME", "GIT_AUTHOR_EMAIL", "GIT_COMMITTER_NAME", "GIT_COMMITTER_EMAIL"];
    assert(crate::gh_policy::str_views(v@) =~= git_identity_vars());
    v
}

fn push_forwarded_env(out: &mut Vec<(String, String)>, h: &HostFacts)
    ensures
        pair_views(final(out)@) == pair_views(old(out)@) + forwarded_env(*h),
{
    let ghost before = pair_views(out@);
    pass_vars(out, h, &terminal_list());
    let ghost s1 = pair_views(out@);
    pass_vars(out, h, &locale_list());
    let ghost s2 = pair_views(out@);
    pass_vars(out, h, &proxy_list());
    let ghost s3 = pair_views(out@);
    pass_vars(out, h, &agentix_list());
    let ghost s4 = pair_views(out@);
    let ssh = vec!["SSH_AUTH_SOCK"];
    assert(crate::gh_policy::str_views(ssh@) =~= seq!["SSH_AUTH_SOCK"@]);
    pass_vars(out, h, &ssh);
    let ghost s5 = pair_views(out@);
    pass_vars(out, h, &identity_list());
    assert(s1 == before + passed(*h, terminal_vars()));
    assert(s2 == before + passed(*h, terminal_vars()) + passed(*h, locale_vars()));
    assert(s3 == before + passed(*h, terminal_vars()) + passed(*h, locale_vars()) + passed(
        *h,
        proxy_vars(),
    ));
    assert(pair_views(out@) =~= before + forwarded_env(*h));
}

fn env_setting_list(h: &HostFacts) -> (r: Vec<(String, String)>)
    ensures
        pair_views(r@) == env_settings(*h),
{
    let mut out: Vec<(String, String)> = Vec::new();
    push_core_env(&mut out, h);
    push_forwarded_env(&mut out, h);
    push_direnv(&mut out, h.direnv.as_slice());
    push_pair(&mut out, lit("TMPDIR"), lit("/tmp"));
    assert(pair_views(out@) =~= env_settings(*h));
    out
}


/// `--setenv key value` for each setting, in order.
pub open spec fn setenv_args(es: Seq<(Seq<char>, Seq<char>)>) -> Seq<Seq<char>>
    decreases es.len(),
{
    if es.len() == 0 {
        Seq::empty()
    } else {
        setenv_args(es.drop_last()) + seq!["--setenv"@, es.last().0, es.last().1]
    }
}

pub(crate) fn push_setenvs(out: &mut Vec<String>, es: &Vec<(String, String)>)
    ensures
        string_views(final(out)@) == string_views(old(out)@) + setenv_args(pair_views(es@)),
{
    let ghost before = string_views(out@);
    let ghost ev = pair_views(es@);
    let mut i: usize = 0;
    assert(before + setenv_args(ev.take(0)) =~= before);
    while i < es.len()
        invariant
            i <= es.len(),
            ev == pair_views(es@),
            string_views(out@) == before + setenv_args(ev.take(i as int)),
        decreases es.len() - i,
    {
        assert(ev.take(i + 1).drop_last() =~= ev.take(i as int));
        assert(ev[i as int] == (es@[i as int].0@, es@[i as int].1@));
        push_three(out, lit("--setenv"), es[i].0.clone(), es[i].1.clone());
        assert(before + setenv_args(ev.take(i + 1)) =~= before + setenv_args(ev.take(i as int))
            + seq!["--setenv"@, ev[i as int].0, ev[i as int].1]);
        i = i + 1;
    }
    assert(ev.take(i as int) =~= ev);
}

// ── The command line ──────────────────────────────────────────────────────────

/// Everything the sandbox mounts, in order.
pub open spec fn mounts(h: HostFacts, o: AxJailOptions) -> Seq<Seq<char>> {
    base_mounts(h) + home_mounts(h) + worktree_mounts(h, o.all_worktrees) + extra_mounts(
        "--ro-bind"@,
        string_views(o.ro_paths@),
    ) + extra_mounts("--bind"@, string_views(o.rw_paths@))
}

/// The `bwrap` arguments that run `ax`: the mounts, then the host
/// environment cleared and the sandbox's own set, then `ax` started in the
/// working directory with the user's arguments.
pub open spec fn ax_jail_args_spec(h: HostFacts, o: AxJailOptions) -> Seq<Seq<char>> {
    mounts(h, o) + seq!["--clearenv"@] + setenv_args(env_settings(h)) + seq![
        "--chdir"@,
        h.cwd@,
        "--"@,
        "ax"@,
    ] + string_views(o.ax_args@)
}

/// The `bwrap` arguments that run `ax` in the sandbox (see
/// [`ax_jail_args_spec`]).
pub fn ax_jail_args(host: &HostFacts, options: &AxJailOptions) -> (r: Vec<String>)
    ensures
        string_views(r@) == ax_jail_args_spec(*host, *options),
{
    let mut out = base_mount_args(host);
    let home = home_mount_args(host);
    append_all(&mut out, &home);
    let wt = worktree_mount_args(host, options.all_worktrees, true);
    append_all(&mut out, &wt);
    extra_mount_args(&mut out, "--ro-bind", options.ro_paths.as_slice());
    extra_mount_args(&mut out, "--bind", options.rw_paths.as_slice());
    let ghost m = string_views(out@);
    assert(m =~= mounts(*host, *options));
    push_one(&mut out, lit("--clearenv"));
    let env = env_setting_list(host);
    push_setenvs(&mut out, &env);
    push_one(&mut out, lit("--chdir"));
    push_one(&mut out, host.cwd.clone());
    push_one(&mut out, lit("--"));
    push_one(&mut out, lit("ax"));
    append_all(&mut out, &options.ax_args);
    assert(string_views(out@) =~= ax_jail_args_spec(*host, *options));
    out
}

/// The host paths whose existence the command line depends on: the Nix
/// daemon socket, the system configuration, the git identity and SSH host
/// keys, the SSH agent socket when set, the shared git configuration when in
/// a repository, and the usual certificate bundles.
pub open spec fn ax_jail_probes_spec(h: HostFacts) -> Seq<Seq<char>> {
    let home = h.home@;
    seq![h.nix_socket@] + system_paths() + seq![
        path_join(home, ".gitconfig"@),
        path_join(path_join(home, ".config"@), "git"@),
        path_join(path_join(home, ".ssh"@), "known_hosts"@),
    ] + (match host_var(h, "SSH_AUTH_SOCK"@) {
        Some(s) => seq![s],
        None => Seq::empty(),
    }) + (match h.git {
        Some(g) => seq![path_join(g.1@, "config"@)],
        None => Seq::empty(),
    }) + seq!["/etc/ssl/certs/ca-bundle.crt"@, "/etc/ssl/certs/ca-certificates.crt"@]
}

/// The host paths to test for existence before building the command line
/// (see [`ax_jail_probes_spec`]); `present` is not read.
pub fn ax_jail_probes(host: &HostFacts) -> (r: Vec<String>)
    ensures
        string_views(r@) == ax_jail_probes_spec(*host),
{
    let mut out: Vec<String> = Vec::new();
    push_one(&mut out, host.nix_socket.clone());
    let sys = system_path_list();
    let mut i: usize = 0;
    let ghost head = string_views(out@);
    assert(head + system_paths().take(0) =~= head);
    while i < sys.len()
        invariant
            i <= sys.len(),
            crate::gh_policy::str_views(sys@) == system_paths(),
            string_views(out@) == head + system_paths().take(i as int),
        decreases sys.len() - i,
    {
        push_one(&mut out, lit(sys[i]));
        assert(head + system_paths().take(i + 1) =~= (head + system_paths().take(i as int)).push(
            system_paths()[i as int],
        ));
        i = i + 1;
    }
    assert(system_paths().take(i as int) =~= system_paths());
    let home = host.home.as_str();
    push_one(&mut out, join_path(home, ".gitconfig"));
    let config = join_path(home, ".config");
    push_one(&mut out, join_path(config.as_str(), "git"));
    let ssh = join_path(home, ".ssh");
    push_one(&mut out, join_path(ssh.as_str(), "known_hosts"));
    match find_value(host.env.as_slice(), "SSH_AUTH_SOCK") {
        Some(s) => push_one(&mut out, s),
        None => {},
    }
    match &host.git {
        Some(g) => push_one(&mut out, join_path(g.1.as_str(), "config")),
        None => {},
    }
    push_one(&mut out, lit("/etc/ssl/certs/ca-bundle.crt"));
    push_one(&mut out, lit("/etc/ssl/certs/ca-certificates.crt"));
    assert(string_views(out@) =~= ax_jail_probes_spec(*host));
    out
}


// ── Laws ──────────────────────────────────────────────────────────────────────

/// The variables the sandbox sets of its own or hands on from the host.
pub open spec fn sandbox_var_name(k: Seq<char>) -> bool {
    ||| k == "HOME"@
    ||| k == "PATH"@
    ||| k == "USER"@
    ||| k == "LOGNAME"@
    ||| k == "NIX_REMOTE"@
    ||| k == "NIX_DAEMON_SOCKET_PATH"@
    ||| k == "NIX_PATH"@
    ||| k == "NIX_CONFIG"@
    ||| k == "NIX_SSL_CERT_FILE"@
    ||| k == "SSL_CERT_FILE"@
    ||| k == "SSH_AUTH_SOCK"@
    ||| k == "TMPDIR"@
    ||| terminal_vars().contains(k)
    ||| locale_vars().contains(k)
    ||| proxy_vars().contains(k)
    ||| agentix_vars().contains(k)
    ||| git_identity_vars().contains(k)
}

/// Every setting of `es` is one the sandbox owns, or a direnv export other
/// than `PATH`, handed on unchanged.
pub open spec fn env_confined(es: Seq<(Seq<char>, Seq<char>)>, ds: Seq<(Seq<char>, Seq<char>)>) -> bool {
    forall|i: int|
        0 <= i < es.len() ==> sandbox_var_name((#[trigger] es[i]).0) || (es[i].0 != "PATH"@
            && ds.contains(es[i]))
}

pub(crate) proof fn lemma_confined_concat(
    a: Seq<(Seq<char>, Seq<char>)>,
    b: Seq<(Seq<char>, Seq<char>)>,
    ds: Seq<(Seq<char>, Seq<char>)>,
)
    requires
        env_confined(a, ds),
        env_confined(b, ds),
    ensures
        env_confined(a + b, ds),
{
    assert forall|i: int| 0 <= i < (a + b).len() implies sandbox_var_name((#[trigger] (a + b)[i]).0)
        || ((a + b)[i].0 != "PATH"@ && ds.contains((a + b)[i])) by {
        if i < a.len() {
            assert((a + b)[i] == a[i]);
        } else {
            assert((a + b)[i] == b[i - a.len()]);
        }
    }
}

pub(crate) proof fn lemma_passed_keys(h: HostFacts, ks: Seq<Seq<char>>)
    ensures
        forall|i: int| 0 <= i < passed(h, ks).len() ==> ks.contains(#[trigger] passed(h, ks)[i].0),
    decreases ks.len(),
{
    if ks.len() > 0 {
        let prev = ks.drop_last();
        lemma_passed_keys(h, prev);
        let p = passed(h, ks);
        assert forall|i: int| 0 <= i < p.len() implies ks.contains(#[trigger] p[i].0) by {
            if i < passed(h, prev).len() {
                assert(p[i] == passed(h, prev)[i]);
                let j = choose|j: int| 0 <= j < prev.len() && prev[j] == passed(h, prev)[i].0;
                assert(ks[j] == prev[j]);
            } else {
                assert(p[i].0 == ks.last());
                assert(ks[ks.len() - 1] == ks.last());
            }
        }
    }
}

pub(crate) proof fn lemma_passed_confined(h: HostFacts, ks: Seq<Seq<char>>, ds: Seq<(Seq<char>, Seq<char>)>)
    requires
        forall|j: int| 0 <= j < ks.len() ==> sandbox_var_name(#[trigger] ks[j]),
    ensures
        env_confined(passed(h, ks), ds),
{
    lemma_passed_keys(h, ks);
    assert forall|i: int| 0 <= i < passed(h, ks).len() implies sandbox_var_name(
        (#[trigger] passed(h, ks)[i]).0,
    ) by {
        assert(ks.contains(passed(h, ks)[i].0));
        let j = choose|j: int| 0 <= j < ks.len() && ks[j] == passed(h, ks)[i].0;
        assert(sandbox_var_name(ks[j]));
    }
}

pub(crate) proof fn lemma_direnv_confined(ds: Seq<(Seq<char>, Seq<char>)>)
    ensures
        env_confined(direnv_settings(ds), ds),
    decreases ds.len(),
{
    if ds.len() > 0 {
        let prev = ds.drop_last();
        lemma_direnv_confined(prev);
        let e = direnv_settings(ds);
        assert forall|i: int| 0 <= i < e.len() implies sandbox_var_name((#[trigger] e[i]).0) || (e[i].0
            != "PATH"@ && ds.contains(e[i])) by {
            if i < direnv_settings(prev).len() {
                assert(e[i] == direnv_settings(prev)[i]);
                if !sandbox_var_name(e[i].0) {
                    let j = choose|j: int| 0 <= j < prev.len() && prev[j] == e[i];
                    assert(ds[j] == prev[j]);
                }
            } else {
                assert(e[i] == ds.last());
                assert(ds[ds.len() - 1] == ds.last());
            }
        }
    }
}

pub(crate) proof fn lemma_list_names(ks: Seq<Seq<char>>)
    requires
        ks == terminal_vars() || ks == locale_vars() || ks == proxy_vars() || ks == agentix_vars()
            || ks == git_identity_vars(),
    ensures
        forall|j: int| 0 <= j < ks.len() ==> sandbox_var_name(#[trigger] ks[j]),
{
    assert forall|j: int| 0 <= j < ks.len() implies sandbox_var_name(#[trigger] ks[j]) by {
        assert(ks.contains(ks[j]));
    }
}

pub(crate) proof fn lemma_single_name(k: Seq<char>)
    requires
        sandbox_var_name(k),
    ensures
        forall|j: int| 0 <= j < seq![k].len() ==> sandbox_var_name(#[trigger] seq![k][j]),
{
    assert forall|j: int| 0 <= j < seq![k].len() implies sandbox_var_name(#[trigger] seq![k][j]) by {
        assert(seq![k][j] == k);
    }
}

/// Nothing of the host environment reaches the sandbox but the variables it
/// sets of its own or hands on by name (home, `PATH`, user, Nix, certificates,
/// terminal, locale, proxies, `ax`'s settings, the SSH agent, the git
/// identity, `TMPDIR`), and the project's direnv exports other than `PATH`,
/// handed on unchanged.
pub proof fn lemma_env_only_listed_vars(h: HostFacts)
    ensures
        env_confined(env_settings(h), pair_views(h.direnv@)),
{
    let ds = pair_views(h.direnv@);
    let user = match host_var(h, "USER"@) {
        Some(u) => u,
        None => "user"@,
    };
    let head = seq![
        ("HOME"@, h.home@),
        ("PATH"@, jail_path_spec(h.home@, first_value(ds, "PATH"@))),
        ("USER"@, user),
    ];
    assert(env_confined(head, ds)) by {
        assert forall|i: int| 0 <= i < head.len() implies sandbox_var_name((#[trigger] head[i]).0) by {}
    }
    lemma_single_name("LOGNAME"@);
    lemma_passed_confined(h, seq!["LOGNAME"@], ds);
    let nix = seq![("NIX_REMOTE"@, "daemon"@), ("NIX_DAEMON_SOCKET_PATH"@, h.nix_socket@)];
    assert(env_confined(nix, ds)) by {
        assert forall|i: int| 0 <= i < nix.len() implies sandbox_var_name((#[trigger] nix[i]).0) by {}
    }
    lemma_single_name("NIX_PATH"@);
    lemma_passed_confined(h, seq!["NIX_PATH"@], ds);
    let config = seq![
        (
            "NIX_CONFIG"@,
            nix_config_spec(
                match host_var(h, "NIX_CONFIG"@) {
                    Some(c) => c,
                    None => Seq::empty(),
                },
            ),
        ),
    ];
    assert(env_confined(config, ds)) by {
        assert forall|i: int| 0 <= i < config.len() implies sandbox_var_name((#[trigger] config[i]).0) by {}
    }
    let certs = cert_settings(h);
    assert(env_confined(certs, ds)) by {
        assert forall|i: int| 0 <= i < certs.len() implies sandbox_var_name((#[trigger] certs[i]).0) by {}
    }
    lemma_confined_concat(head, passed(h, seq!["LOGNAME"@]), ds);
    lemma_confined_concat(head + passed(h, seq!["LOGNAME"@]), nix, ds);
    lemma_confined_concat(head + passed(h, seq!["LOGNAME"@]) + nix, passed(h, seq!["NIX_PATH"@]), ds);
    lemma_confined_concat(
        head + passed(h, seq!["LOGNAME"@]) + nix + passed(h, seq!["NIX_PATH"@]),
        config,
        ds,
    );
    lemma_confined_concat(
        head + passed(h, seq!["LOGNAME"@]) + nix + passed(h, seq!["NIX_PATH"@]) + config,
        certs,
        ds,
    );
    assert(env_confined(core_env(h), ds));
    lemma_list_names(terminal_vars());
    lemma_list_names(locale_vars());
    lemma_list_names(proxy_vars());
    lemma_list_names(agentix_vars());
    lemma_list_names(git_identity_vars());
    lemma_single_name("SSH_AUTH_SOCK"@);
    lemma_passed_confined(h, terminal_vars(), ds);
    lemma_passed_confined(h, locale_vars(), ds);
    lemma_passed_confined(h, proxy_vars(), ds);
    lemma_passed_confined(h, agentix_vars(), ds);
    lemma_passed_confined(h, seq!["SSH_AUTH_SOCK"@], ds);
    lemma_passed_confined(h, git_identity_vars(), ds);
    let f1 = passed(h, terminal_vars());
    let f2 = f1 + passed(h, locale_vars());
    lemma_confined_concat(f1, passed(h, locale_vars()), ds);
    let f3 = f2 + passed(h, proxy_vars());
    lemma_confined_concat(f2, passed(h, proxy_vars()), ds);
    let f4 = f3 + passed(h, agentix_vars());
    lemma_confined_concat(f3, passed(h, agentix_vars()), ds);
    let f5 = f4 + passed(h, seq!["SSH_AUTH_SOCK"@]);
    lemma_confined_concat(f4, passed(h, seq!["SSH_AUTH_SOCK"@]), ds);
    lemma_confined_concat(f5, passed(h, git_identity_vars()), ds);
    assert(env_confined(forwarded_env(h), ds));
    lemma_direnv_confined(ds);
    let tail = seq![("TMPDIR"@, "/tmp"@)];
    assert(env_confined(tail, ds)) by {
        assert forall|i: int| 0 <= i < tail.len() implies sandbox_var_name((#[trigger] tail[i]).0) by {}
    }
    lemma_confined_concat(core_env(h), forwarded_env(h), ds);
    lemma_confined_concat(core_env(h) + forwarded_env(h), direnv_settings(ds), ds);
    lemma_confined_concat(core_env(h) + forwarded_env(h) + direnv_settings(ds), tail, ds);
}



/// The credentials of the model providers and of the gateway.
pub open spec fn is_provider_key(k: Seq<char>) -> bool {
    k == "ANTHROPIC_API_KEY"@ || k == "OPENAI_API_KEY"@ || k == "OPENROUTER_API_KEY"@ || k
        == "AGENTIX_API_KEY"@
}

/// No credential of a model provider or of the gateway reaches the `ax`
/// sandbox from the host environment: a setting of one of them can only be
/// the project's own direnv export.
pub proof fn lemma_no_host_credentials(h: HostFacts)
    ensures
        forall|i: int|
            0 <= i < env_settings(h).len() && is_provider_key(#[trigger] env_settings(h)[i].0)
                ==> pair_views(h.direnv@).contains(env_settings(h)[i]),
{
    reveal_strlit("HOME");
    reveal_strlit("PATH");
    reveal_strlit("USER");
    reveal_strlit("LOGNAME");
    reveal_strlit("NIX_REMOTE");
    reveal_strlit("NIX_DAEMON_SOCKET_PATH");
    reveal_strlit("NIX_PATH");
    reveal_strlit("NIX_CONFIG");
    reveal_strlit("NIX_SSL_CERT_FILE");
    reveal_strlit("SSL_CERT_FILE");
    reveal_strlit("SSH_AUTH_SOCK");
    reveal_strlit("TMPDIR");
    reveal_strlit("TERM");
    reveal_strlit("COLORTERM");
    reveal_strlit("TERM_PROGRAM");
    reveal_strlit("TERM_PROGRAM_VERSION");
    reveal_strlit("LANG");
    reveal_strlit("LC_ALL");
    reveal_strlit("LC_CTYPE");
    reveal_strlit("LC_MESSAGES");
    reveal_strlit("LC_COLLATE");
    reveal_strlit("LC_TIME");
    reveal_strlit("HTTP_PROXY");
    reveal_strlit("HTTPS_PROXY");
    reveal_strlit("NO_PROXY");
    reveal_strlit("http_proxy");
    reveal_strlit("https_proxy");
    reveal_strlit("no_proxy");
    reveal_strlit("AGENTIX_MODEL");
    reveal_strlit("AGENTIX_GATEWAY_URL");
    reveal_strlit("AGENTIX_CLOUD_MODEL");
    reveal_strlit("GIT_AUTHOR_NAME");
    reveal_strlit("GIT_AUTHOR_EMAIL");
    reveal_strlit("GIT_COMMITTER_NAME");
    reveal_strlit("GIT_COMMITTER_EMAIL");
    reveal_strlit("ANTHROPIC_API_KEY");
    reveal_strlit("OPENAI_API_KEY");
    reveal_strlit("OPENROUTER_API_KEY");
    reveal_strlit("AGENTIX_API_KEY");
    assert("HOME"@.len() == 4 && "HOME"@[0] == 'H');
    assert("PATH"@.len() == 4 && "PATH"@[0] == 'P');
    assert("USER"@.len() == 4 && "USER"@[0] == 'U');
    assert("LOGNAME"@.len() == 7 && "LOGNAME"@[0] == 'L');
    assert("NIX_REMOTE"@.len() == 10 && "NIX_REMOTE"@[0] == 'N');
    assert("NIX_DAEMON_SOCKET_PATH"@.len() == 22 && "NIX_DAEMON_SOCKET_PATH"@[0] == 'N');
    assert("NIX_PATH"@.len() == 8 && "NIX_PATH"@[0] == 'N');
    assert("NIX_CONFIG"@.len() == 10 && "NIX_CONFIG"@[0] == 'N');
    assert("NIX_SSL_CERT_FILE"@.len() == 17 && "NIX_SSL_CERT_FILE"@[0] == 'N');
    assert("SSL_CERT_FILE"@.len() == 13 && "SSL_CERT_FILE"@[0] == 'S');
    assert("SSH_AUTH_SOCK"@.len() == 13 && "SSH_AUTH_SOCK"@[0] == 'S');
    assert("TMPDIR"@.len() == 6 && "TMPDIR"@[0] == 'T');
    assert("TERM"@.len() == 4 && "TERM"@[0] == 'T');
    assert("COLORTERM"@.len() == 9 && "COLORTERM"@[0] == 'C');
    assert("TERM_PROGRAM"@.len() == 12 && "TERM_PROGRAM"@[0] == 'T');
    assert("TERM_PROGRAM_VERSION"@.len() == 20 && "TERM_PROGRAM_VERSION"@[0] == 'T');
    assert("LANG"@.len() == 4 && "LANG"@[0] == 'L');
    assert("LC_ALL"@.len() == 6 && "LC_ALL"@[0] == 'L');
    assert("LC_CTYPE"@.len() == 8 && "LC_CTYPE"@[0] == 'L');
    assert("LC_MESSAGES"@.len() == 11 && "LC_MESSAGES"@[0] == 'L');
    assert("LC_COLLATE"@.len() == 10 && "LC_COLLATE"@[0] == 'L');
    assert("LC_TIME"@.len() == 7 && "LC_TIME"@[0] == 'L');
    assert("HTTP_PROXY"@.len() == 10 && "HTTP_PROXY"@[0] == 'H');
    assert("HTTPS_PROXY"@.len() == 11 && "HTTPS_PROXY"@[0] == 'H');
    assert("NO_PROXY"@.len() == 8 && "NO_PROXY"@[0] == 'N');
    assert("http_proxy"@.len() == 10 && "http_proxy"@[0] == 'h');
    assert("https_proxy"@.len() == 11 && "https_proxy"@[0] == 'h');
    assert("no_proxy"@.len() == 8 && "no_proxy"@[0] == 'n');
    assert("AGENTIX_MODEL"@.len() == 13 && "AGENTIX_MODEL"@[0] == 'A');
    assert("AGENTIX_GATEWAY_URL"@.len() == 19 && "AGENTIX_GATEWAY_URL"@[0] == 'A');
    assert("AGENTIX_CLOUD_MODEL"@.len() == 19 && "AGENTIX_CLOUD_MODEL"@[0] == 'A');
    assert("GIT_AUTHOR_NAME"@.len() == 15 && "GIT_AUTHOR_NAME"@[0] == 'G');
    assert("GIT_AUTHOR_EMAIL"@.len() == 16 && "GIT_AUTHOR_EMAIL"@[0] == 'G');
    assert("GIT_COMMITTER_NAME"@.len() == 18 && "GIT_COMMITTER_NAME"@[0] == 'G');
    assert("GIT_COMMITTER_EMAIL"@.len() == 19 && "GIT_COMMITTER_EMAIL"@[0] == 'G');
    assert("ANTHROPIC_API_KEY"@.len() == 17 && "ANTHROPIC_API_KEY"@[0] == 'A');
    assert("OPENAI_API_KEY"@.len() == 14 && "OPENAI_API_KEY"@[0] == 'O');
    assert("OPENROUTER_API_KEY"@.len() == 18 && "OPENROUTER_API_KEY"@[0] == 'O');
    assert("AGENTIX_API_KEY"@.len() == 15 && "AGENTIX_API_KEY"@[0] == 'A');
    assert forall|k: Seq<char>| is_provider_key(k) implies !sandbox_var_name(k) by {
        assert(!terminal_vars().contains(k)) by {
            if terminal_vars().contains(k) {
                let j = choose|j: int| 0 <= j < terminal_vars().len() && terminal_vars()[j] == k;
                assert(0 <= j < 4);
                assert(j != 0 || terminal_vars()[0] == k);
                assert(j != 1 || terminal_vars()[1] == k);
                assert(j != 2 || terminal_vars()[2] == k);
                assert(j != 3 || terminal_vars()[3] == k);
            }
        }
        assert(!locale_vars().contains(k)) by {
            if locale_vars().contains(k) {
                let j = choose|j: int| 0 <= j < locale_vars().len() && locale_vars()[j] == k;
                assert(0 <= j < 6);
                assert(j != 0 || locale_vars()[0] == k);
                assert(j != 1 || locale_vars()[1] == k);
                assert(j != 2 || locale_vars()[2] == k);
                assert(j != 3 || locale_vars()[3] == k);
                assert(j != 4 || locale_vars()[4] == k);
                assert(j != 5 || locale_vars()[5] == k);
            }
        }
        assert(!proxy_vars().contains(k)) by {
            if proxy_vars().contains(k) {
                let j = choose|j: int| 0 <= j < proxy_vars().len() && proxy_vars()[j] == k;
                assert(0 <= j < 6);
                assert(j != 0 || proxy_vars()[0] == k);
                assert(j != 1 || proxy_vars()[1] == k);
                assert(j != 2 || proxy_vars()[2] == k);
                assert(j != 3 || proxy_vars()[3] == k);
                assert(j != 4 || proxy_vars()[4] == k);
                assert(j != 5 || proxy_vars()[5] == k);
            }
        }
        assert(!agentix_vars().contains(k)) by {
            if agentix_vars().contains(k) {
                let j = choose|j: int| 0 <= j < agentix_vars().len() && agentix_vars()[j] == k;
                assert(0 <= j < 3);
                assert(j != 0 || agentix_vars()[0] == k);
                assert(j != 1 || agentix_vars()[1] == k);
                assert(j != 2 || agentix_vars()[2] == k);
            }
        }
        assert(!git_identity_vars().contains(k)) by {
            if git_identity_vars().contains(k) {
                let j = choose|j: int| 0 <= j < git_identity_vars().len() && git_identity_vars()[j] == k;
                assert(0 <= j < 4);
                assert(j != 0 || git_identity_vars()[0] == k);
                assert(j != 1 || git_identity_vars()[1] == k);
                assert(j != 2 || git_identity_vars()[2] == k);
                assert(j != 3 || git_identity_vars()[3] == k);
            }
        }
    }
    lemma_env_only_listed_vars(h);
}

/// `ax` is what the sandbox runs, with exactly the user's arguments, placed
/// after `--` so that `bwrap` reads none of them as its own options; the
/// host environment is cleared before the sandbox's own is set.
pub proof fn lemma_ax_runs_with_user_args(h: HostFacts, o: AxJailOptions)
    ensures
        ({
            let r = ax_jail_args_spec(h, o);
            let n = string_views(o.ax_args@).len();
            &&& r.skip(r.len() - n - 2) == seq!["--"@, "ax"@] + string_views(o.ax_args@)
            &&& r[mounts(h, o).len() as int] == "--clearenv"@
            &&& r.subrange(
                (mounts(h, o).len() + 1) as int,
                (mounts(h, o).len() + 1 + setenv_args(env_settings(h)).len()) as int,
            ) == setenv_args(env_settings(h))
        }),
{
    let r = ax_jail_args_spec(h, o);
    let a = string_views(o.ax_args@);
    let m = mounts(h, o);
    let e = setenv_args(env_settings(h));
    assert(r =~= m + seq!["--clearenv"@] + e + seq!["--chdir"@, h.cwd@] + (seq!["--"@, "ax"@] + a));
    assert(r.skip(r.len() - a.len() - 2) =~= seq!["--"@, "ax"@] + a);
    assert(r.subrange((m.len() + 1) as int, (m.len() + 1 + e.len()) as int) =~= e);
}

/// When the working directory is in a git repository, the repository's
/// hooks are hidden under an empty file system, mounted after the working
/// tree so that nothing the sandbox writes there can run on the host; this
/// holds of both sandboxes, whether or not they mask the git configuration.
pub proof fn lemma_git_hooks_hidden(h: HostFacts, all_worktrees: bool, mask_config: bool)
    ensures
        h.git matches Some(g) ==> {
            let w = worktree_mounts_with(h, all_worktrees, mask_config);
            let k = dir_for(bind_root(h, all_worktrees)).len() as int;
            &&& w[k] == "--bind"@
            &&& w[k + 1] == bind_root(h, all_worktrees)
            &&& exists|j: int|
                k + 2 < j && j + 1 < w.len() && w[j] == "--tmpfs"@ && #[trigger] w[j + 1] == path_join(
                    g.1@,
                    "hooks"@,
                )
        },
{
    match h.git {
        Some(g) => {
            let root = bind_root(h, all_worktrees);
            let d = dir_for(root);
            let cd = g.1@;
            let own = if !all_worktrees && !path_starts_with(cd, g.0@) {
                dir_for(cd) + seq!["--bind"@, cd, cd]
            } else {
                Seq::empty()
            };
            let config = path_join(cd, "config"@);
            let last = if mask_config && on_host(h, config) {
                seq!["--ro-bind"@, config, config]
            } else {
                Seq::empty()
            };
            let w = worktree_mounts_with(h, all_worktrees, mask_config);
            assert(w =~= d + seq!["--bind"@, root, root] + own + seq!["--tmpfs"@, path_join(cd, "hooks"@)]
                + last);
            let j: int = (d.len() + 3 + own.len()) as int;
            assert(w[j] == "--tmpfs"@);
            assert(w[j + 1] == path_join(cd, "hooks"@));
        },
        None => {},
    }
}

pub(crate) proof fn lemma_ro_binds_agree(h1: HostFacts, h2: HostFacts, ps: Seq<Seq<char>>)
    requires
        forall|j: int| 0 <= j < ps.len() ==> on_host(h1, #[trigger] ps[j]) == on_host(h2, ps[j]),
    ensures
        ro_binds(h1, ps) == ro_binds(h2, ps),
    decreases ps.len(),
{
    if ps.len() > 0 {
        let prev = ps.drop_last();
        assert forall|j: int| 0 <= j < prev.len() implies on_host(h1, #[trigger] prev[j]) == on_host(
            h2,
            prev[j],
        ) by {
            assert(prev[j] == ps[j]);
        }
        lemma_ro_binds_agree(h1, h2, prev);
        assert(ps.last() == ps[ps.len() - 1]);
    }
}

pub(crate) proof fn lemma_passed_agree(h1: HostFacts, h2: HostFacts, ks: Seq<Seq<char>>)
    requires
        h1.env == h2.env,
    ensures
        passed(h1, ks) == passed(h2, ks),
    decreases ks.len(),
{
    if ks.len() > 0 {
        lemma_passed_agree(h1, h2, ks.drop_last());
    }
}

/// The command line depends on the host's files only through the paths
/// [`ax_jail_probes`] lists: two hosts that differ only in which other
/// paths exist get the same command line.
pub proof fn lemma_probed_paths_decide(h1: HostFacts, h2: HostFacts, o: AxJailOptions)
    requires
        h1.home == h2.home,
        h1.cwd == h2.cwd,
        h1.bin_dir == h2.bin_dir,
        h1.nix_socket == h2.nix_socket,
        h1.env == h2.env,
        h1.direnv == h2.direnv,
        h1.git == h2.git,
        forall|i: int|
            0 <= i < ax_jail_probes_spec(h1).len() ==> on_host(h1, #[trigger] ax_jail_probes_spec(h1)[i])
                == on_host(h2, ax_jail_probes_spec(h1)[i]),
    ensures
        ax_jail_args_spec(h1, o) == ax_jail_args_spec(h2, o),
{
    let pr = ax_jail_probes_spec(h1);
    let sp = system_paths();
    let home = h1.home@;
    let sock_part: Seq<Seq<char>> = match host_var(h1, "SSH_AUTH_SOCK"@) {
        Some(s) => seq![s],
        None => Seq::empty(),
    };
    let git_part: Seq<Seq<char>> = match h1.git {
        Some(g) => seq![path_join(g.1@, "config"@)],
        None => Seq::empty(),
    };
    let ids = seq![
        path_join(home, ".gitconfig"@),
        path_join(path_join(home, ".config"@), "git"@),
        path_join(path_join(home, ".ssh"@), "known_hosts"@),
    ];
    let certs = seq!["/etc/ssl/certs/ca-bundle.crt"@, "/etc/ssl/certs/ca-certificates.crt"@];
    assert(pr =~= seq![h1.nix_socket@] + sp + ids + sock_part + git_part + certs);
    assert(pr[0] == h1.nix_socket@);
    assert forall|j: int| 0 <= j < sp.len() implies on_host(h1, #[trigger] sp[j]) == on_host(h2, sp[j]) by {
        assert(pr[1 + j] == sp[j]);
    }
    lemma_ro_binds_agree(h1, h2, sp);
    let b: int = 1 + sp.len() as int;
    assert(pr[b] == ids[0]);
    assert(pr[b + 1] == ids[1]);
    assert(pr[b + 2] == ids[2]);
    let c = b + 3;
    match host_var(h1, "SSH_AUTH_SOCK"@) {
        Some(sk) => {
            assert(pr[c] == sk);
        },
        None => {},
    }
    let d: int = c + sock_part.len();
    match h1.git {
        Some(g) => {
            assert(pr[d] == path_join(g.1@, "config"@));
        },
        None => {},
    }
    let e: int = d + git_part.len();
    assert(pr[e] == certs[0]);
    assert(pr[e + 1] == certs[1]);
    assert(base_mounts(h1) == base_mounts(h2));
    assert(home_mounts(h1) == home_mounts(h2));
    assert(worktree_mounts(h1, o.all_worktrees) == worktree_mounts(h2, o.all_worktrees));
    assert(cert_settings(h1) == cert_settings(h2));
    lemma_passed_agree(h1, h2, seq!["LOGNAME"@]);
    lemma_passed_agree(h1, h2, seq!["NIX_PATH"@]);
    lemma_passed_agree(h1, h2, terminal_vars());
    lemma_passed_agree(h1, h2, locale_vars());
    lemma_passed_agree(h1, h2, proxy_vars());
    lemma_passed_agree(h1, h2, agentix_vars());
    lemma_passed_agree(h1, h2, seq!["SSH_AUTH_SOCK"@]);
    lemma_passed_agree(h1, h2, git_identity_vars());
    assert(core_env(h1) == core_env(h2));
    assert(forwarded_env(h1) == forwarded_env(h2));
    assert(env_settings(h1) == env_settings(h2));
}

} // verus!
