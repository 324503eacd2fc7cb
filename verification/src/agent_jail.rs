//! The coding-agent sandbox: the `bwrap` command line that runs a coding
//! agent (named by the launcher's program name, `<agent>-jail`) with the Nix
//! store, the working tree, the agent's own state and a curated environment.
//! Unlike the `ax` sandbox it hands the agent its provider's credentials and
//! its own `<AGENT>_` settings, gives it a synthetic git configuration, and
//! forwards the SSH agent only when asked to.
use vstd::prelude::*;

use crate::gh_policy::str_views;
use crate::jail::{gitconfig_spec, jail_path_spec, nix_config_spec};
use crate::sandbox::{
    append_all, bind_root, cert_settings, concat, core_env, dir_for, direnv_settings,
    exists_on_host, extra_mount_args, extra_mounts, git_identity_vars, host_var, identity_list,
    lemma_git_hooks_hidden, lemma_passed_agree, lemma_passed_keys, lemma_ro_binds_agree, lit,
    locale_list, locale_vars, namespace_args, nix_mounts, on_host, parent_of, pass_vars, passed,
    path_parent, proxy_list, proxy_vars, push_core_env, push_direnv, push_namespace_args,
    push_nix_mounts, push_one, push_pair, push_setenvs, push_three, setenv_args,
    system_path_list, system_paths, terminal_list, terminal_vars, worktree_mount_args,
    worktree_mounts_with, HostFacts,
};
use crate::store::{join_path, path_join};
use crate::text::{
    chars_of, ends_with_text, extend_chars, find_value, first_value, has_prefix, has_suffix,
    pair_views, starts_with, string_of, string_opt, string_views,
};

verus! {

broadcast use vstd::seq_lib::group_seq_properties;

// ── The agent ─────────────────────────────────────────────────────────────────

/// The agent a launcher runs: its program name without the `-jail` suffix;
/// none when the name has no such suffix or nothing before it.
pub open spec fn agent_name_spec(program: Seq<char>) -> Option<Seq<char>> {
    if program.len() > "-jail"@.len() && has_suffix(program, "-jail"@) {
        Some(program.take(program.len() - "-jail"@.len()))
    } else {
        None
    }
}

/// The agent a launcher named `program` runs (see [`agent_name_spec`]).
pub fn agent_name(program: &str) -> (r: Option<String>)
    ensures
        string_opt(r) == agent_name_spec(program@),
{
    let v = chars_of(program);
    let suffix = chars_of("-jail");
    if v.len() > suffix.len() && ends_with_text(&v, "-jail") {
        let s = crate::text::string_of_range(&v, 0, v.len() - suffix.len());
        assert(s@ =~= program@.take(program@.len() - "-jail"@.len()));
        Some(s)
    } else {
        None
    }
}

/// `char::to_ascii_uppercase`.
pub open spec fn ascii_upper(c: char) -> char {
    if 97 <= (c as u32) <= 122 {
        ((c as u32) - 32) as char
    } else {
        c
    }
}

fn to_ascii_upper(c: char) -> (r: char)
    ensures
        r == ascii_upper(c),
{
    let u = c as u32;
    if 97 <= u && u <= 122 {
        let b = (u - 32) as u8;
        let r = b as char;
        assert(r == ascii_upper(c));
        r
    } else {
        c
    }
}

/// The prefix of the host variables that configure the agent and are handed
/// on to it: its name in ASCII capitals, then `_`.
pub open spec fn env_prefix(agent: Seq<char>) -> Seq<char> {
    agent.map_values(|c: char| ascii_upper(c)) + seq!['_']
}

/// The prefix of the agent's own host variables (see [`env_prefix`]).
pub fn agent_env_prefix(agent: &str) -> (r: String)
    ensures
        r@ == env_prefix(agent@),
{
    let v = chars_of(agent);
    let mut out: Vec<char> = Vec::new();
    let mut i: usize = 0;
    while i < v.len()
        invariant
            i <= v.len(),
            v@ == agent@,
            out@ =~= agent@.take(i as int).map_values(|c: char| ascii_upper(c)),
        decreases v.len() - i,
    {
        out.push(to_ascii_upper(v[i]));
        assert(agent@.take(i + 1) =~= agent@.take(i as int).push(agent@[i as int]));
        i = i + 1;
    }
    assert(agent@.take(i as int) =~= agent@);
    out.push('_');
    string_of(&out)
}

/// The git author name used when the host sets none: the agent's name with
/// its first letter in ASCII capitals.
pub open spec fn default_git_name(agent: Seq<char>) -> Seq<char> {
    if agent.len() == 0 {
        agent
    } else {
        seq![ascii_upper(agent[0])] + agent.skip(1)
    }
}

/// The git author email used when the host sets none: the agent's name at
/// `localhost`.
pub open spec fn default_git_email(agent: Seq<char>) -> Seq<char> {
    agent + "@localhost"@
}

/// The synthetic git configuration of the sandbox: the host's global
/// `user.name` and `user.email` when set, else the agent's own identity
/// (see [`default_git_name`], [`default_git_email`]).
pub open spec fn agent_gitconfig_spec(
    agent: Seq<char>,
    name: Option<Seq<char>>,
    email: Option<Seq<char>>,
) -> Seq<char> {
    gitconfig_spec(
        match name {
            Some(n) => n,
            None => default_git_name(agent),
        },
        match email {
            Some(e) => e,
            None => default_git_email(agent),
        },
    )
}

/// The synthetic git configuration written for the agent (see
/// [`agent_gitconfig_spec`]).
pub fn agent_gitconfig(agent: &str, name: Option<&str>, email: Option<&str>) -> (r: String)
    ensures
        r@ == agent_gitconfig_spec(
            agent@,
            match name {
                Some(n) => Some(n@),
                None => None,
            },
            match email {
                Some(e) => Some(e@),
                None => None,
            },
        ),
{
    let n: String = match name {
        Some(n) => string_of(&chars_of(n)),
        None => {
            let v = chars_of(agent);
            if v.len() == 0 {
                String::new()
            } else {
                let mut w: Vec<char> = Vec::new();
                w.push(to_ascii_upper(v[0]));
                let rest = crate::text::copy_range(&v, 1, v.len());
                extend_chars(&mut w, &rest);
                assert(w@ =~= default_git_name(agent@));
                string_of(&w)
            }
        },
    };
    let e: String = match email {
        Some(e) => string_of(&chars_of(e)),
        None => {
            let mut v = chars_of(agent);
            let at = chars_of("@localhost");
            extend_chars(&mut v, &at);
            string_of(&v)
        },
    };
    crate::jail::gitconfig_contents(n.as_str(), e.as_str())
}

// ── What the launcher knows ───────────────────────────────────────────────────

/// What the launcher found on the host and prepared for the agent's sandbox.
#[derive(Debug, Clone)]
pub struct AgentJailHost {
    /// The host as the `ax` sandbox sees it: home, working directory, tools,
    /// Nix socket, existing paths, environment, direnv exports and git
    /// worktree.
    pub facts: HostFacts,
    /// The agent: the command run in the sandbox, and the name of its state
    /// (`~/.<agent>`, `~/.<agent>.json`) and of its settings (`<AGENT>_*`).
    pub agent: String,
    /// The synthetic git configuration on the host, mounted as
    /// `/tmp/gitconfig`.
    pub gitconfig: String,
    /// The socket of the `gh` proxy, when it was started.
    pub gh_socket: Option<String>,
}

/// What the user asked of the agent's sandbox.
#[derive(Debug, Clone)]
pub struct AgentJailOptions {
    /// Paths mounted read-only at their own place.
    pub ro_paths: Vec<String>,
    /// Paths mounted read-write at their own place.
    pub rw_paths: Vec<String>,
    /// Mount every worktree of the repository, not only the current one.
    pub all_worktrees: bool,
    /// Forward the host's SSH agent into the sandbox.
    pub allow_ssh: bool,
    /// Let the agent skip its permission prompts.
    pub dangerous: bool,
}

// ── Mounts ────────────────────────────────────────────────────────────────────

/// The agent's state directory, `~/.<agent>`.
pub open spec fn state_dir(home: Seq<char>, agent: Seq<char>) -> Seq<char> {
    path_join(home, "."@ + agent)
}

/// The agent's state file, `~/.<agent>.json`.
pub open spec fn state_file(home: Seq<char>, agent: Seq<char>) -> Seq<char> {
    path_join(home, "."@ + agent + ".json"@)
}

/// The host's SSH agent socket, read-write, when forwarding is asked for,
/// the socket is set and it exists.
pub open spec fn ssh_agent_mounts(f: HostFacts, allow_ssh: bool) -> Seq<Seq<char>> {
    if allow_ssh {
        match host_var(f, "SSH_AUTH_SOCK"@) {
            Some(s) => if on_host(f, s) {
                seq!["--bind"@, s, s]
            } else {
                Seq::empty()
            },
            None => Seq::empty(),
        }
    } else {
        Seq::empty()
    }
}

/// The directory of the `gh` proxy's socket, read-write, when the proxy
/// runs and its socket's path has a parent.
pub open spec fn gh_socket_mounts(sock: Option<Seq<char>>) -> Seq<Seq<char>> {
    match sock {
        Some(s) => match path_parent(s) {
            Some(d) => seq!["--bind"@, d, d],
            None => Seq::empty(),
        },
        None => Seq::empty(),
    }
}

/// The agent's home: an empty file system with the tools as `~/bin`, a
/// `/bin/sh`, the agent's state directory read-write, its state file when it
/// exists, the SSH host keys read-only, then the SSH agent and the `gh`
/// proxy's socket (see [`ssh_agent_mounts`], [`gh_socket_mounts`]).
pub open spec fn agent_home_mounts(h: AgentJailHost, o: AgentJailOptions) -> Seq<Seq<char>> {
    let f = h.facts;
    let home = f.home@;
    let sd = state_dir(home, h.agent@);
    let sf = state_file(home, h.agent@);
    let ssh = path_join(home, ".ssh"@);
    let known = path_join(ssh, "known_hosts"@);
    seq![
        "--tmpfs"@,
        home,
        "--ro-bind"@,
        f.bin_dir@,
        path_join(home, "bin"@),
        "--symlink"@,
        home + "/bin/bash"@,
        "/bin/sh"@,
        "--bind"@,
        sd,
        sd,
    ] + (if on_host(f, sf) {
        seq!["--bind"@, sf, sf]
    } else {
        Seq::empty()
    }) + (if on_host(f, known) {
        seq!["--dir"@, ssh, "--ro-bind"@, known, known]
    } else {
        Seq::empty()
    }) + ssh_agent_mounts(f, o.allow_ssh) + gh_socket_mounts(string_opt(h.gh_socket))
}

/// Everything the agent's sandbox mounts, in order: namespaces, the
/// synthetic git configuration as `/tmp/gitconfig`, the Nix store and
/// system configuration, the agent's home, the working tree with the git
/// hooks hidden (the shared git configuration is not masked), and the
/// user's extra paths.
pub open spec fn agent_mounts(h: AgentJailHost, o: AgentJailOptions) -> Seq<Seq<char>> {
    namespace_args() + seq!["--ro-bind"@, h.gitconfig@, "/tmp/gitconfig"@] + nix_mounts(h.facts)
        + agent_home_mounts(h, o) + worktree_mounts_with(h.facts, o.all_worktrees, false)
        + extra_mounts("--ro-bind"@, string_views(o.ro_paths@)) + extra_mounts(
        "--bind"@,
        string_views(o.rw_paths@),
    )
}

fn agent_home_mount_args(out: &mut Vec<String>, h: &AgentJailHost, o: &AgentJailOptions)
    ensures
        string_views(final(out)@) == string_views(old(out)@) + agent_home_mounts(*h, *o),
{
    let ghost before = string_views(out@);
    let f = &h.facts;
    let home = f.home.as_str();
    let mut dot = chars_of(".");
    let av = chars_of(h.agent.as_str());
    extend_chars(&mut dot, &av);
    let sd_name = string_of(&dot);
    let json = chars_of(".json");
    extend_chars(&mut dot, &json);
    let sf_name = string_of(&dot);
    let sd = join_path(home, sd_name.as_str());
    let sf = join_path(home, sf_name.as_str());
    let ssh = join_path(home, ".ssh");
    let known = join_path(ssh.as_str(), "known_hosts");
    push_one(out, lit("--tmpfs"));
    push_one(out, f.home.clone());
    push_three(out, lit("--ro-bind"), f.bin_dir.clone(), join_path(home, "bin"));
    push_three(out, lit("--symlink"), concat(home, "/bin/bash"), lit("/bin/sh"));
    push_three(out, lit("--bind"), sd.clone(), sd.clone());
    let ghost s1 = string_views(out@);
    if exists_on_host(f, &chars_of(sf.as_str())) {
        push_three(out, lit("--bind"), sf.clone(), sf.clone());
    }
    let ghost s2 = string_views(out@);
    if exists_on_host(f, &chars_of(known.as_str())) {
        push_one(out, lit("--dir"));
        push_one(out, ssh.clone());
        push_three(out, lit("--ro-bind"), known.clone(), known.clone());
    }
    let ghost s3 = string_views(out@);
    if o.allow_ssh {
        match find_value(f.env.as_slice(), "SSH_AUTH_SOCK") {
            Some(sock) => {
                if exists_on_host(f, &chars_of(sock.as_str())) {
                    push_three(out, lit("--bind"), sock.clone(), sock.clone());
                }
            },
            None => {},
        }
    }
    assert(string_views(out@) =~= s3 + ssh_agent_mounts(*f, o.allow_ssh));
    let ghost s4 = string_views(out@);
    match &h.gh_socket {
        Some(s) => match parent_of(s.as_str()) {
            Some(d) => push_three(out, lit("--bind"), d.clone(), d),
            None => {},
        },
        None => {},
    }
    assert(string_views(out@) =~= s4 + gh_socket_mounts(string_opt(h.gh_socket)));
    assert(string_views(out@) =~= before + agent_home_mounts(*h, *o));
}

fn agent_mount_args(h: &AgentJailHost, o: &AgentJailOptions) -> (r: Vec<String>)
    ensures
        string_views(r@) == agent_mounts(*h, *o),
{
    let mut out: Vec<String> = Vec::new();
    push_namespace_args(&mut out);
    push_three(&mut out, lit("--ro-bind"), h.gitconfig.clone(), lit("/tmp/gitconfig"));
    push_nix_mounts(&mut out, &h.facts);
    agent_home_mount_args(&mut out, h, o);
    let wt = worktree_mount_args(&h.facts, o.all_worktrees, false);
    append_all(&mut out, &wt);
    extra_mount_args(&mut out, "--ro-bind", o.ro_paths.as_slice());
    extra_mount_args(&mut out, "--bind", o.rw_paths.as_slice());
    assert(string_views(out@) =~= agent_mounts(*h, *o));
    out
}

// ── The environment ───────────────────────────────────────────────────────────

/// The credentials and endpoint of the agent's model provider.
pub open spec fn provider_vars() -> Seq<Seq<char>> {
    seq!["ANTHROPIC_API_KEY"@, "ANTHROPIC_BASE_URL"@, "ANTHROPIC_AUTH_TOKEN"@]
}

/// The settings of `es` whose name begins with `p`, unchanged and in order.
pub open spec fn prefixed_vars(es: Seq<(Seq<char>, Seq<char>)>, p: Seq<char>) -> Seq<
    (Seq<char>, Seq<char>),
>
    decreases es.len(),
{
    if es.len() == 0 {
        Seq::empty()
    } else {
        prefixed_vars(es.drop_last(), p) + if has_prefix(es.last().0, p) {
            seq![es.last()]
        } else {
            Seq::empty()
        }
    }
}

/// The socket of the `gh` proxy as `GH_PROXY_SOCKET`, when the proxy runs.
pub open spec fn gh_socket_env(sock: Option<Seq<char>>) -> Seq<(Seq<char>, Seq<char>)> {
    match sock {
        Some(s) => seq![("GH_PROXY_SOCKET"@, s)],
        None => Seq::empty(),
    }
}

/// The host variables handed on to the agent: terminal, locale, proxies,
/// the provider's credentials, and the agent's own `<AGENT>_*` settings.
pub open spec fn agent_forwarded_env(h: AgentJailHost) -> Seq<(Seq<char>, Seq<char>)> {
    passed(h.facts, terminal_vars()) + passed(h.facts, locale_vars()) + passed(h.facts, proxy_vars())
        + passed(h.facts, provider_vars()) + prefixed_vars(
        pair_views(h.facts.env@),
        env_prefix(h.agent@),
    )
}

/// The rest of the agent's environment: the SSH agent when forwarding is
/// asked for, the git identity, the synthetic git configuration, the `gh`
/// proxy's socket, direnv's exports but `PATH`, and `TMPDIR`.
pub open spec fn agent_tail_env(h: AgentJailHost, o: AgentJailOptions) -> Seq<(Seq<char>, Seq<char>)> {
    (if o.allow_ssh {
        passed(h.facts, seq!["SSH_AUTH_SOCK"@])
    } else {
        Seq::empty()
    }) + passed(h.facts, git_identity_vars()) + seq![("GIT_CONFIG_GLOBAL"@, "/tmp/gitconfig"@)]
        + gh_socket_env(string_opt(h.gh_socket)) + direnv_settings(pair_views(h.facts.direnv@))
        + seq![("TMPDIR"@, "/tmp"@)]
}

/// The whole environment of the agent's sandbox, in the order it is set.
pub open spec fn agent_env(h: AgentJailHost, o: AgentJailOptions) -> Seq<(Seq<char>, Seq<char>)> {
    core_env(h.facts) + agent_forwarded_env(h) + agent_tail_env(h, o)
}

fn provider_list() -> (r: Vec<&'static str>)
    ensures
        str_views(r@) == provider_vars(),
{
    let v = vec!["ANTHROPIC_API_KEY", "ANTHROPIC_BASE_URL", "ANTHROPIC_AUTH_TOKEN"];
    assert(str_views(v@) =~= provider_vars());
    v
}

fn push_prefixed(out: &mut Vec<(String, String)>, es: &[(String, String)], prefix: &str)
    ensures
        pair_views(final(out)@) == pair_views(old(out)@) + prefixed_vars(pair_views(es@), prefix@),
{
    let ghost before = pair_views(out@);
    let ghost ev = pair_views(es@);
    let p = chars_of(prefix);
    let mut i: usize = 0;
    assert(before + prefixed_vars(ev.take(0), prefix@) =~= before);
    while i < es.len()
        invariant
            i <= es.len(),
            ev == pair_views(es@),
            p@ == prefix@,
            pair_views(out@) == before + prefixed_vars(ev.take(i as int), prefix@),
        decreases es.len() - i,
    {
        assert(ev.take(i + 1).drop_last() =~= ev.take(i as int));
        assert(ev[i as int] == (es@[i as int].0@, es@[i as int].1@));
        let k = chars_of(es[i].0.as_str());
        if starts_with(&k, &p) {
            push_pair(out, es[i].0.clone(), es[i].1.clone());
            assert(before + prefixed_vars(ev.take(i + 1), prefix@) =~= before + prefixed_vars(
                ev.take(i as int),
                prefix@,
            ) + seq![ev[i as int]]);
        } else {
            assert(before + prefixed_vars(ev.take(i + 1), prefix@) =~= before + prefixed_vars(
                ev.take(i as int),
                prefix@,
            ));
        }
        i = i + 1;
    }
    assert(ev.take(i as int) =~= ev);
}

fn push_agent_forwarded(out: &mut Vec<(String, String)>, h: &AgentJailHost)
    ensures
        pair_views(final(out)@) == pair_views(old(out)@) + agent_forwarded_env(*h),
{
    let ghost before = pair_views(out@);
    let f = &h.facts;
    pass_vars(out, f, &terminal_list());
    let ghost s1 = pair_views(out@);
    pass_vars(out, f, &locale_list());
    let ghost s2 = pair_views(out@);
    pass_vars(out, f, &proxy_list());
    let ghost s3 = pair_views(out@);
    pass_vars(out, f, &provider_list());
    let ghost s4 = pair_views(out@);
    let prefix = agent_env_prefix(h.agent.as_str());
    push_prefixed(out, f.env.as_slice(), prefix.as_str());
    assert(s2 == before + passed(*f, terminal_vars()) + passed(*f, locale_vars()));
    assert(s3 == before + passed(*f, terminal_vars()) + passed(*f, locale_vars()) + passed(
        *f,
        proxy_vars(),
    ));
    assert(pair_views(out@) =~= before + agent_forwarded_env(*h));
}

fn push_agent_tail(out: &mut Vec<(String, String)>, h: &AgentJailHost, o: &AgentJailOptions)
    ensures
        pair_views(final(out)@) == pair_views(old(out)@) + agent_tail_env(*h, *o),
{
    let ghost before = pair_views(out@);
    let f = &h.facts;
    if o.allow_ssh {
        let ssh = vec!["SSH_AUTH_SOCK"];
        assert(str_views(ssh@) =~= seq!["SSH_AUTH_SOCK"@]);
        pass_vars(out, f, &ssh);
    }
    let ghost s1 = pair_views(out@);
    pass_vars(out, f, &identity_list());
    let ghost s2 = pair_views(out@);
    push_pair(out, lit("GIT_CONFIG_GLOBAL"), lit("/tmp/gitconfig"));
    match &h.gh_socket {
        Some(s) => push_pair(out, lit("GH_PROXY_SOCKET"), s.clone()),
        None => {},
    }
    let ghost s3 = pair_views(out@);
    assert(s3 =~= s2 + seq![("GIT_CONFIG_GLOBAL"@, "/tmp/gitconfig"@)] + gh_socket_env(
        string_opt(h.gh_socket),
    ));
    push_direnv(out, f.direnv.as_slice());
    push_pair(out, lit("TMPDIR"), lit("/tmp"));
    assert(pair_views(out@) =~= before + agent_tail_env(*h, *o));
}

fn agent_env_list(h: &AgentJailHost, o: &AgentJailOptions) -> (r: Vec<(String, String)>)
    ensures
        pair_views(r@) == agent_env(*h, *o),
{
    let mut out: Vec<(String, String)> = Vec::new();
    push_core_env(&mut out, &h.facts);
    push_agent_forwarded(&mut out, h);
    push_agent_tail(&mut out, h, o);
    assert(pair_views(out@) =~= agent_env(*h, *o));
    out
}

// ── The command line ──────────────────────────────────────────────────────────

/// How the agent is started: after `--`, so that `bwrap` reads nothing of
/// it as its own options, with `--dangerously-skip-permissions` when the
/// user asked for it.
pub open spec fn agent_command(h: AgentJailHost, o: AgentJailOptions) -> Seq<Seq<char>> {
    seq!["--"@, h.agent@] + if o.dangerous {
        seq!["--dangerously-skip-permissions"@]
    } else {
        Seq::empty()
    }
}

/// The `bwrap` arguments that run the agent: the mounts, then the host
/// environment cleared and the sandbox's own set, then the agent started in
/// the working directory.
pub open spec fn agent_jail_args_spec(h: AgentJailHost, o: AgentJailOptions) -> Seq<Seq<char>> {
    agent_mounts(h, o) + seq!["--clearenv"@] + setenv_args(agent_env(h, o)) + seq![
        "--chdir"@,
        h.facts.cwd@,
    ] + agent_command(h, o)
}

/// The `bwrap` arguments that run the agent in its sandbox (see
/// [`agent_jail_args_spec`]).
pub fn agent_jail_args(host: &AgentJailHost, options: &AgentJailOptions) -> (r: Vec<String>)
    ensures
        string_views(r@) == agent_jail_args_spec(*host, *options),
{
    let mut out = agent_mount_args(host, options);
    push_one(&mut out, lit("--clearenv"));
    let env = agent_env_list(host, options);
    push_setenvs(&mut out, &env);
    push_one(&mut out, lit("--chdir"));
    push_one(&mut out, host.facts.cwd.clone());
    push_one(&mut out, lit("--"));
    push_one(&mut out, host.agent.clone());
    if options.dangerous {
        push_one(&mut out, lit("--dangerously-skip-permissions"));
    }
    assert(string_views(out@) =~= agent_jail_args_spec(*host, *options));
    out
}

/// The host paths whose existence the agent's command line depends on: the
/// Nix daemon socket, the system configuration, the agent's state file, the
/// SSH host keys, the SSH agent socket when set, and the usual certificate
/// bundles.
pub open spec fn agent_jail_probes_spec(h: AgentJailHost) -> Seq<Seq<char>> {
    let f = h.facts;
    let home = f.home@;
    seq![f.nix_socket@] + system_paths() + seq![
        state_file(home, h.agent@),
        path_join(path_join(home, ".ssh"@), "known_hosts"@),
    ] + (match host_var(f, "SSH_AUTH_SOCK"@) {
        Some(s) => seq![s],
        None => Seq::empty(),
    }) + seq!["/etc/ssl/certs/ca-bundle.crt"@, "/etc/ssl/certs/ca-certificates.crt"@]
}

/// The host paths to test for existence before building the agent's
/// command line (see [`agent_jail_probes_spec`]); `present` is not read.
pub fn agent_jail_probes(host: &AgentJailHost) -> (r: Vec<String>)
    ensures
        string_views(r@) == agent_jail_probes_spec(*host),
{
    let f = &host.facts;
    let mut out: Vec<String> = Vec::new();
    push_one(&mut out, f.nix_socket.clone());
    let sys = system_path_list();
    let mut i: usize = 0;
    let ghost head = string_views(out@);
    assert(head + system_paths().take(0) =~= head);
    while i < sys.len()
        invariant
            i <= sys.len(),
            str_views(sys@) == system_paths(),
            string_views(out@) == head + system_paths().take(i as int),
        decreases sys.len() - i,
    {
        push_one(&mut out, lit(sys[i]));
        assert(head + system_paths().take(i + 1) =~= (head + system_paths().take(i as int)).push(
            system_paths()[i as int],
        ));
        i = i + 1;
    }
    assert(system_paths().take(i as int) =~= system_paths());
    let home = f.home.as_str();
    let mut name = chars_of(".");
    let av = chars_of(host.agent.as_str());
    extend_chars(&mut name, &av);
    let json = chars_of(".json");
    extend_chars(&mut name, &json);
    push_one(&mut out, join_path(home, string_of(&name).as_str()));
    let ssh = join_path(home, ".ssh");
    push_one(&mut out, join_path(ssh.as_str(), "known_hosts"));
    match find_value(f.env.as_slice(), "SSH_AUTH_SOCK") {
        Some(s) => push_one(&mut out, s),
        None => {},
    }
    push_one(&mut out, lit("/etc/ssl/certs/ca-bundle.crt"));
    push_one(&mut out, lit("/etc/ssl/certs/ca-certificates.crt"));
    assert(string_views(out@) =~= agent_jail_probes_spec(*host));
    out
}

// ── Laws ──────────────────────────────────────────────────────────────────────

/// The variables the agent's sandbox sets of its own or hands on by name.
pub open spec fn agent_var_name(k: Seq<char>) -> bool {
    ||| k == "HOME"@
    ||| k == "PATH"@
    ||| k == "USER"@
    ||| k == "LOGNAME"@
    ||| k == "NIX_REMOTE"@
    ||| k == "NIX_DAEMON_SOCKET_PATH"@
    ||| k == "NIX_PATH"@
    ||| k == "NIX_CONFIG"@
    ||| k == "NIX_SSL_CERT_FILE"@
    ||| k == "SSL_CERT_FILE"@
    ||| k == "GIT_CONFIG_GLOBAL"@
    ||| k == "GH_PROXY_SOCKET"@
    ||| k == "TMPDIR"@
    ||| terminal_vars().contains(k)
    ||| locale_vars().contains(k)
    ||| proxy_vars().contains(k)
    ||| provider_vars().contains(k)
    ||| git_identity_vars().contains(k)
}

/// A setting the agent's sandbox may carry: one it sets of its own or hands
/// on by name, the SSH agent's socket when forwarding is asked for, one of
/// the agent's own `<AGENT>_*` host variables unchanged, or one of direnv's
/// exports other than `PATH` unchanged.
pub open spec fn agent_setting_allowed(
    h: AgentJailHost,
    o: AgentJailOptions,
    e: (Seq<char>, Seq<char>),
) -> bool {
    ||| agent_var_name(e.0)
    ||| o.allow_ssh && e.0 == "SSH_AUTH_SOCK"@
    ||| has_prefix(e.0, env_prefix(h.agent@)) && pair_views(h.facts.env@).contains(e)
    ||| e.0 != "PATH"@ && pair_views(h.facts.direnv@).contains(e)
}

/// Every setting of `es` is allowed (see [`agent_setting_allowed`]).
pub open spec fn agent_env_confined(
    h: AgentJailHost,
    o: AgentJailOptions,
    es: Seq<(Seq<char>, Seq<char>)>,
) -> bool {
    forall|i: int| 0 <= i < es.len() ==> agent_setting_allowed(h, o, #[trigger] es[i])
}

proof fn lemma_agent_concat(h: AgentJailHost, o: AgentJailOptions, a: Seq<(Seq<char>, Seq<char>)>, b: Seq<(Seq<char>, Seq<char>)>)
    requires
        agent_env_confined(h, o, a),
        agent_env_confined(h, o, b),
    ensures
        agent_env_confined(h, o, a + b),
{
    assert forall|i: int| 0 <= i < (a + b).len() implies agent_setting_allowed(h, o, #[trigger] (a + b)[i]) by {
        if i < a.len() {
            assert((a + b)[i] == a[i]);
        } else {
            assert((a + b)[i] == b[i - a.len()]);
        }
    }
}

proof fn lemma_agent_passed(h: AgentJailHost, o: AgentJailOptions, ks: Seq<Seq<char>>)
    requires
        forall|j: int| 0 <= j < ks.len() ==> agent_var_name(#[trigger] ks[j]),
    ensures
        agent_env_confined(h, o, passed(h.facts, ks)),
{
    lemma_passed_keys(h.facts, ks);
    let p = passed(h.facts, ks);
    assert forall|i: int| 0 <= i < p.len() implies agent_setting_allowed(h, o, #[trigger] p[i]) by {
        assert(ks.contains(p[i].0));
        let j = choose|j: int| 0 <= j < ks.len() && ks[j] == p[i].0;
        assert(agent_var_name(ks[j]));
    }
}

proof fn lemma_agent_list(ks: Seq<Seq<char>>)
    requires
        ks == terminal_vars() || ks == locale_vars() || ks == proxy_vars() || ks == provider_vars()
            || ks == git_identity_vars(),
    ensures
        forall|j: int| 0 <= j < ks.len() ==> agent_var_name(#[trigger] ks[j]),
{
    assert forall|j: int| 0 <= j < ks.len() implies agent_var_name(#[trigger] ks[j]) by {
        assert(ks.contains(ks[j]));
    }
}

proof fn lemma_agent_one(k: Seq<char>)
    requires
        agent_var_name(k),
    ensures
        forall|j: int| 0 <= j < seq![k].len() ==> agent_var_name(#[trigger] seq![k][j]),
{
    assert forall|j: int| 0 <= j < seq![k].len() implies agent_var_name(#[trigger] seq![k][j]) by {
        assert(seq![k][j] == k);
    }
}

proof fn lemma_prefixed_from(es: Seq<(Seq<char>, Seq<char>)>, p: Seq<char>)
    ensures
        forall|i: int|
            0 <= i < prefixed_vars(es, p).len() ==> has_prefix((#[trigger] prefixed_vars(es, p)[i]).0, p)
                && es.contains(prefixed_vars(es, p)[i]),
    decreases es.len(),
{
    if es.len() > 0 {
        let prev = es.drop_last();
        lemma_prefixed_from(prev, p);
        let r = prefixed_vars(es, p);
        assert forall|i: int| 0 <= i < r.len() implies has_prefix((#[trigger] r[i]).0, p) && es.contains(r[i]) by {
            if i < prefixed_vars(prev, p).len() {
                assert(r[i] == prefixed_vars(prev, p)[i]);
                let j = choose|j: int| 0 <= j < prev.len() && prev[j] == r[i];
                assert(es[j] == prev[j]);
            } else {
                assert(r[i] == es.last());
                assert(es[es.len() - 1] == es.last());
            }
        }
    }
}

proof fn lemma_direnv_from(ds: Seq<(Seq<char>, Seq<char>)>)
    ensures
        forall|i: int|
            0 <= i < direnv_settings(ds).len() ==> (#[trigger] direnv_settings(ds)[i]).0 != "PATH"@
                && ds.contains(direnv_settings(ds)[i]),
    decreases ds.len(),
{
    if ds.len() > 0 {
        let prev = ds.drop_last();
        lemma_direnv_from(prev);
        let r = direnv_settings(ds);
        assert forall|i: int| 0 <= i < r.len() implies (#[trigger] r[i]).0 != "PATH"@ && ds.contains(r[i]) by {
            if i < direnv_settings(prev).len() {
                assert(r[i] == direnv_settings(prev)[i]);
                let j = choose|j: int| 0 <= j < prev.len() && prev[j] == r[i];
                assert(ds[j] == prev[j]);
            } else {
                assert(r[i] == ds.last());
                assert(ds[ds.len() - 1] == ds.last());
            }
        }
    }
}

proof fn lemma_agent_core(h: AgentJailHost, o: AgentJailOptions)
    ensures
        agent_env_confined(h, o, core_env(h.facts)),
{
    let f = h.facts;
    let c = core_env(f);
    let head = seq![
        ("HOME"@, f.home@),
        ("PATH"@, jail_path_spec(f.home@, first_value(pair_views(f.direnv@), "PATH"@))),
        (
            "USER"@,
            match host_var(f, "USER"@) {
                Some(u) => u,
                None => "user"@,
            },
        ),
    ];
    let nix = seq![("NIX_REMOTE"@, "daemon"@), ("NIX_DAEMON_SOCKET_PATH"@, f.nix_socket@)];
    let config = seq![
        (
            "NIX_CONFIG"@,
            nix_config_spec(
                match host_var(f, "NIX_CONFIG"@) {
                    Some(x) => x,
                    None => Seq::empty(),
                },
            ),
        ),
    ];
    let certs = cert_settings(f);
    assert(agent_env_confined(h, o, head)) by {
        assert forall|i: int| 0 <= i < head.len() implies agent_setting_allowed(h, o, #[trigger] head[i]) by {}
    }
    assert(agent_env_confined(h, o, nix)) by {
        assert forall|i: int| 0 <= i < nix.len() implies agent_setting_allowed(h, o, #[trigger] nix[i]) by {}
    }
    assert(agent_env_confined(h, o, config)) by {
        assert forall|i: int| 0 <= i < config.len() implies agent_setting_allowed(h, o, #[trigger] config[i]) by {}
    }
    assert(agent_env_confined(h, o, certs)) by {
        assert forall|i: int| 0 <= i < certs.len() implies agent_setting_allowed(h, o, #[trigger] certs[i]) by {}
    }
    lemma_agent_one("LOGNAME"@);
    lemma_agent_passed(h, o, seq!["LOGNAME"@]);
    lemma_agent_one("NIX_PATH"@);
    lemma_agent_passed(h, o, seq!["NIX_PATH"@]);
    let a1 = head + passed(f, seq!["LOGNAME"@]);
    lemma_agent_concat(h, o, head, passed(f, seq!["LOGNAME"@]));
    lemma_agent_concat(h, o, a1, nix);
    lemma_agent_concat(h, o, a1 + nix, passed(f, seq!["NIX_PATH"@]));
    lemma_agent_concat(h, o, a1 + nix + passed(f, seq!["NIX_PATH"@]), config);
    lemma_agent_concat(h, o, a1 + nix + passed(f, seq!["NIX_PATH"@]) + config, certs);
    assert(c =~= a1 + nix + passed(f, seq!["NIX_PATH"@]) + config + certs);
}

/// Nothing of the host environment reaches the agent's sandbox but the
/// variables it sets of its own or hands on by name (home, `PATH`, user,
/// Nix, certificates, terminal, locale, proxies, the provider's
/// credentials, the git identity and configuration, the `gh` proxy's
/// socket, `TMPDIR`), the SSH agent's socket when forwarding is asked for,
/// the agent's own `<AGENT>_*` host variables, and the project's direnv
/// exports other than `PATH`, each handed on unchanged.
pub proof fn lemma_agent_env_only_listed_vars(h: AgentJailHost, o: AgentJailOptions)
    ensures
        agent_env_confined(h, o, agent_env(h, o)),
{
    let f = h.facts;
    lemma_agent_core(h, o);
    lemma_agent_list(terminal_vars());
    lemma_agent_list(locale_vars());
    lemma_agent_list(proxy_vars());
    lemma_agent_list(provider_vars());
    lemma_agent_list(git_identity_vars());
    lemma_agent_passed(h, o, terminal_vars());
    lemma_agent_passed(h, o, locale_vars());
    lemma_agent_passed(h, o, proxy_vars());
    lemma_agent_passed(h, o, provider_vars());
    lemma_agent_passed(h, o, git_identity_vars());
    let pre = prefixed_vars(pair_views(f.env@), env_prefix(h.agent@));
    lemma_prefixed_from(pair_views(f.env@), env_prefix(h.agent@));
    assert(agent_env_confined(h, o, pre)) by {
        assert forall|i: int| 0 <= i < pre.len() implies agent_setting_allowed(h, o, #[trigger] pre[i]) by {}
    }
    let t1 = passed(f, terminal_vars());
    lemma_agent_concat(h, o, t1, passed(f, locale_vars()));
    let t2 = t1 + passed(f, locale_vars());
    lemma_agent_concat(h, o, t2, passed(f, proxy_vars()));
    let t3 = t2 + passed(f, proxy_vars());
    lemma_agent_concat(h, o, t3, passed(f, provider_vars()));
    lemma_agent_concat(h, o, t3 + passed(f, provider_vars()), pre);
    assert(agent_env_confined(h, o, agent_forwarded_env(h)));
    let ssh: Seq<(Seq<char>, Seq<char>)> = if o.allow_ssh {
        passed(f, seq!["SSH_AUTH_SOCK"@])
    } else {
        Seq::empty()
    };
    assert(agent_env_confined(h, o, ssh)) by {
        if o.allow_ssh {
            lemma_passed_keys(f, seq!["SSH_AUTH_SOCK"@]);
            assert forall|i: int| 0 <= i < ssh.len() implies agent_setting_allowed(h, o, #[trigger] ssh[i]) by {
                assert(seq!["SSH_AUTH_SOCK"@].contains(ssh[i].0));
            }
        }
    }
    let gitcfg = seq![("GIT_CONFIG_GLOBAL"@, "/tmp/gitconfig"@)];
    assert(agent_env_confined(h, o, gitcfg)) by {
        assert forall|i: int| 0 <= i < gitcfg.len() implies agent_setting_allowed(h, o, #[trigger] gitcfg[i]) by {}
    }
    let gh = gh_socket_env(string_opt(h.gh_socket));
    assert(agent_env_confined(h, o, gh)) by {
        assert forall|i: int| 0 <= i < gh.len() implies agent_setting_allowed(h, o, #[trigger] gh[i]) by {}
    }
    let ds = pair_views(f.direnv@);
    lemma_direnv_from(ds);
    let dv = direnv_settings(ds);
    assert(agent_env_confined(h, o, dv)) by {
        assert forall|i: int| 0 <= i < dv.len() implies agent_setting_allowed(h, o, #[trigger] dv[i]) by {}
    }
    let tmp = seq![("TMPDIR"@, "/tmp"@)];
    assert(agent_env_confined(h, o, tmp)) by {
        assert forall|i: int| 0 <= i < tmp.len() implies agent_setting_allowed(h, o, #[trigger] tmp[i]) by {}
    }
    lemma_agent_concat(h, o, ssh, passed(f, git_identity_vars()));
    let u1 = ssh + passed(f, git_identity_vars());
    lemma_agent_concat(h, o, u1, gitcfg);
    lemma_agent_concat(h, o, u1 + gitcfg, gh);
    lemma_agent_concat(h, o, u1 + gitcfg + gh, dv);
    lemma_agent_concat(h, o, u1 + gitcfg + gh + dv, tmp);
    assert(agent_env_confined(h, o, agent_tail_env(h, o)));
    lemma_agent_concat(h, o, core_env(f), agent_forwarded_env(h));
    lemma_agent_concat(h, o, core_env(f) + agent_forwarded_env(h), agent_tail_env(h, o));
}

proof fn lemma_ssh_sock_not_listed()
    ensures
        !agent_var_name("SSH_AUTH_SOCK"@),
{
    let k = "SSH_AUTH_SOCK"@;
    reveal_strlit("HOME");
    reveal_strlit("PATH");
    reveal_strlit("USER");
    reveal_strlit("LOGNAME");
    reveal_strlit("NIX_REMOTE");
    reveal_strlit("NIX_DAEMON_SOCKET_PATH");
    reveal_strlit("NIX_PATH");
    reveal_strlit("NIX_CONFIG");
    reveal_strlit("NIX_SSL_CERT_FILE");
    reveal_strlit("SSL_CERT_FILE");
    reveal_strlit("GIT_CONFIG_GLOBAL");
    reveal_strlit("GH_PROXY_SOCKET");
    reveal_strlit("TMPDIR");
    reveal_strlit("SSH_AUTH_SOCK");
    reveal_strlit("TERM");
    reveal_strlit("COLORTERM");
    reveal_strlit("TERM_PROGRAM");
    reveal_strlit("TERM_PROGRAM_VERSION");
    reveal_strlit("LANG");
    reveal_strlit("LC_ALL");
    reveal_strlit("LC_CTYPE");
    reveal_strlit("LC_MESSAGES");
    reveal_strlit("LC_COLLATE");
    reveal_strlit("LC_TIME");
    reveal_strlit("HTTP_PROXY");
    reveal_strlit("HTTPS_PROXY");
    reveal_strlit("NO_PROXY");
    reveal_strlit("http_proxy");
    reveal_strlit("https_proxy");
    reveal_strlit("no_proxy");
    reveal_strlit("ANTHROPIC_API_KEY");
    reveal_strlit("ANTHROPIC_BASE_URL");
    reveal_strlit("ANTHROPIC_AUTH_TOKEN");
    reveal_strlit("GIT_AUTHOR_NAME");
    reveal_strlit("GIT_AUTHOR_EMAIL");
    reveal_strlit("GIT_COMMITTER_NAME");
    reveal_strlit("GIT_COMMITTER_EMAIL");
    assert("HOME"@.len() == 4);
    assert("PATH"@.len() == 4);
    assert("USER"@.len() == 4);
    assert("LOGNAME"@.len() == 7);
    assert("NIX_REMOTE"@.len() == 10);
    assert("NIX_DAEMON_SOCKET_PATH"@.len() == 22);
    assert("NIX_PATH"@.len() == 8);
    assert("NIX_CONFIG"@.len() == 10);
    assert("NIX_SSL_CERT_FILE"@.len() == 17);
    assert("SSL_CERT_FILE"@.len() == 13);
    assert("GIT_CONFIG_GLOBAL"@.len() == 17);
    assert("GH_PROXY_SOCKET"@.len() == 15);
    assert("TMPDIR"@.len() == 6);
    assert("SSH_AUTH_SOCK"@.len() == 13);
    assert("TERM"@.len() == 4);
    assert("COLORTERM"@.len() == 9);
    assert("TERM_PROGRAM"@.len() == 12);
    assert("TERM_PROGRAM_VERSION"@.len() == 20);
    assert("LANG"@.len() == 4);
    assert("LC_ALL"@.len() == 6);
    assert("LC_CTYPE"@.len() == 8);
    assert("LC_MESSAGES"@.len() == 11);
    assert("LC_COLLATE"@.len() == 10);
    assert("LC_TIME"@.len() == 7);
    assert("HTTP_PROXY"@.len() == 10);
    assert("HTTPS_PROXY"@.len() == 11);
    assert("NO_PROXY"@.len() == 8);
    assert("http_proxy"@.len() == 10);
    assert("https_proxy"@.len() == 11);
    assert("no_proxy"@.len() == 8);
    assert("ANTHROPIC_API_KEY"@.len() == 17);
    assert("ANTHROPIC_BASE_URL"@.len() == 18);
    assert("ANTHROPIC_AUTH_TOKEN"@.len() == 20);
    assert("GIT_AUTHOR_NAME"@.len() == 15);
    assert("GIT_AUTHOR_EMAIL"@.len() == 16);
    assert("GIT_COMMITTER_NAME"@.len() == 18);
    assert("GIT_COMMITTER_EMAIL"@.len() == 19);
    assert("SSL_CERT_FILE"@[2] == 'L' && "SSH_AUTH_SOCK"@[2] == 'H');
    assert(!terminal_vars().contains(k)) by {
        if terminal_vars().contains(k) {
            let j = choose|j: int| 0 <= j < terminal_vars().len() && terminal_vars()[j] == k;
            assert(0 <= j < 4);
            assert(j != 0 || terminal_vars()[0] == k);
            assert(j != 1 || terminal_vars()[1] == k);
            assert(j != 2 || terminal_vars()[2] == k);
            assert(j != 3 || terminal_vars()[3] == k);
        }
    }
    assert(!locale_vars().contains(k)) by {
        if locale_vars().contains(k) {
            let j = choose|j: int| 0 <= j < locale_vars().len() && locale_vars()[j] == k;
            assert(0 <= j < 6);
            assert(j != 0 || locale_vars()[0] == k);
            assert(j != 1 || locale_vars()[1] == k);
            assert(j != 2 || locale_vars()[2] == k);
            assert(j != 3 || locale_vars()[3] == k);
            assert(j != 4 || locale_vars()[4] == k);
            assert(j != 5 || locale_vars()[5] == k);
        }
    }
    assert(!proxy_vars().contains(k)) by {
        if proxy_vars().contains(k) {
            let j = choose|j: int| 0 <= j < proxy_vars().len() && proxy_vars()[j] == k;
            assert(0 <= j < 6);
            assert(j != 0 || proxy_vars()[0] == k);
            assert(j != 1 || proxy_vars()[1] == k);
            assert(j != 2 || proxy_vars()[2] == k);
            assert(j != 3 || proxy_vars()[3] == k);
            assert(j != 4 || proxy_vars()[4] == k);
            assert(j != 5 || proxy_vars()[5] == k);
        }
    }
    assert(!provider_vars().contains(k)) by {
        if provider_vars().contains(k) {
            let j = choose|j: int| 0 <= j < provider_vars().len() && provider_vars()[j] == k;
            assert(0 <= j < 3);
            assert(j != 0 || provider_vars()[0] == k);
            assert(j != 1 || provider_vars()[1] == k);
            assert(j != 2 || provider_vars()[2] == k);
        }
    }
    assert(!git_identity_vars().contains(k)) by {
        if git_identity_vars().contains(k) {
            let j = choose|j: int| 0 <= j < git_identity_vars().len() && git_identity_vars()[j] == k;
            assert(0 <= j < 4);
            assert(j != 0 || git_identity_vars()[0] == k);
            assert(j != 1 || git_identity_vars()[1] == k);
            assert(j != 2 || git_identity_vars()[2] == k);
            assert(j != 3 || git_identity_vars()[3] == k);
        }
    }
}

/// Without `allow_ssh` the host's SSH agent stays outside the sandbox:
/// nothing mounted depends on the host environment, and a setting named
/// `SSH_AUTH_SOCK` can only be one of direnv's exports or, when the agent's
/// prefix covers that name, the agent's own host variable, handed on
/// unchanged.
pub proof fn lemma_ssh_agent_only_when_allowed(
    h: AgentJailHost,
    o: AgentJailOptions,
    other_env: Vec<(String, String)>,
)
    requires
        !o.allow_ssh,
    ensures
        agent_mounts((AgentJailHost { facts: (HostFacts { env: other_env, ..h.facts }), ..h }), o)
            == agent_mounts(h, o),
        forall|i: int|
            0 <= i < agent_env(h, o).len() && (#[trigger] agent_env(h, o)[i]).0 == "SSH_AUTH_SOCK"@
                ==> pair_views(h.facts.direnv@).contains(agent_env(h, o)[i]) || (has_prefix(
                "SSH_AUTH_SOCK"@,
                env_prefix(h.agent@),
            ) && pair_views(h.facts.env@).contains(agent_env(h, o)[i])),
{
    let h2 = AgentJailHost { facts: HostFacts { env: other_env, ..h.facts }, ..h };
    assert(agent_home_mounts(h2, o) == agent_home_mounts(h, o));
    lemma_ro_binds_agree(h2.facts, h.facts, system_paths());
    assert(nix_mounts(h2.facts) == nix_mounts(h.facts));
    assert(worktree_mounts_with(h2.facts, o.all_worktrees, false) == worktree_mounts_with(
        h.facts,
        o.all_worktrees,
        false,
    ));
    lemma_agent_env_only_listed_vars(h, o);
    lemma_ssh_sock_not_listed();
}

/// In a git repository the agent's sandbox mounts the working tree
/// read-write and, after it and before `--clearenv`, hides the repository's
/// hooks under an empty file system, so that nothing the agent writes there
/// can run on the host.
pub proof fn lemma_agent_hooks_hidden(h: AgentJailHost, o: AgentJailOptions)
    ensures
        h.facts.git matches Some(g) ==> {
            let r = agent_jail_args_spec(h, o);
            let root = bind_root(h.facts, o.all_worktrees);
            let k = (namespace_args().len() + 3 + nix_mounts(h.facts).len() + agent_home_mounts(
                h,
                o,
            ).len() + dir_for(root).len()) as int;
            &&& r[k] == "--bind"@
            &&& r[k + 1] == root
            &&& exists|j: int|
                k + 2 < j && j + 1 < agent_mounts(h, o).len() && r[j] == "--tmpfs"@ && #[trigger] r[j
                    + 1] == path_join(g.1@, "hooks"@)
        },
{
    match h.facts.git {
        Some(g) => {
            let f = h.facts;
            let r = agent_jail_args_spec(h, o);
            let root = bind_root(f, o.all_worktrees);
            let pre = namespace_args() + seq!["--ro-bind"@, h.gitconfig@, "/tmp/gitconfig"@]
                + nix_mounts(f) + agent_home_mounts(h, o);
            let w = worktree_mounts_with(f, o.all_worktrees, false);
            let extra = extra_mounts("--ro-bind"@, string_views(o.ro_paths@)) + extra_mounts(
                "--bind"@,
                string_views(o.rw_paths@),
            );
            let rest = seq!["--clearenv"@] + setenv_args(agent_env(h, o)) + seq![
                "--chdir"@,
                f.cwd@,
            ] + agent_command(h, o);
            assert(agent_mounts(h, o) =~= pre + w + extra);
            assert(r =~= pre + w + (extra + rest));
            lemma_git_hooks_hidden(f, o.all_worktrees, false);
            let d = dir_for(root).len() as int;
            let b = pre.len() as int;
            assert(r[b + d] == w[d]);
            assert(r[b + d + 1] == w[d + 1]);
            let j0 = choose|j: int|
                d + 2 < j && j + 1 < w.len() && w[j] == "--tmpfs"@ && #[trigger] w[j + 1] == path_join(
                    g.1@,
                    "hooks"@,
                );
            assert(r[b + j0] == w[j0]);
            assert(r[b + j0 + 1] == w[j0 + 1]);
        },
        None => {},
    }
}

/// The agent is what the sandbox runs, after `--` so that `bwrap` reads
/// nothing of it as its own options, and with
/// `--dangerously-skip-permissions` exactly when asked for; the host
/// environment is cleared before the sandbox's own is set.
pub proof fn lemma_agent_command(h: AgentJailHost, o: AgentJailOptions)
    ensures
        ({
            let r = agent_jail_args_spec(h, o);
            let m = agent_mounts(h, o).len();
            let e = setenv_args(agent_env(h, o));
            &&& r[m as int] == "--clearenv"@
            &&& r.subrange((m + 1) as int, (m + 1 + e.len()) as int) == e
            &&& r[(m + 1 + e.len()) as int] == "--chdir"@
            &&& r[(m + 2 + e.len()) as int] == h.facts.cwd@
            &&& r.skip((m + 3 + e.len()) as int) == seq!["--"@, h.agent@] + if o.dangerous {
                seq!["--dangerously-skip-permissions"@]
            } else {
                Seq::empty()
            }
        }),
{
    let r = agent_jail_args_spec(h, o);
    let m = agent_mounts(h, o);
    let e = setenv_args(agent_env(h, o));
    let c = agent_command(h, o);
    assert(r =~= m + seq!["--clearenv"@] + e + seq!["--chdir"@, h.facts.cwd@] + c);
    assert(r.subrange((m.len() + 1) as int, (m.len() + 1 + e.len()) as int) =~= e);
    assert(r.skip((m.len() + 3 + e.len()) as int) =~= c);
}


/// The agent's command line depends on the host's files only through the
/// paths [`agent_jail_probes`] lists: two hosts that differ only in which
/// other paths exist get the same command line.
pub proof fn lemma_agent_probed_paths_decide(h1: AgentJailHost, h2: AgentJailHost, o: AgentJailOptions)
    requires
        h2 == (AgentJailHost { facts: (HostFacts { present: h2.facts.present, ..h1.facts }), ..h1 }),
        forall|i: int|
            0 <= i < agent_jail_probes_spec(h1).len() ==> on_host(
                h1.facts,
                #[trigger] agent_jail_probes_spec(h1)[i],
            ) == on_host(h2.facts, agent_jail_probes_spec(h1)[i]),
    ensures
        agent_jail_args_spec(h1, o) == agent_jail_args_spec(h2, o),
{
    let f1 = h1.facts;
    let f2 = h2.facts;
    let pr = agent_jail_probes_spec(h1);
    let sp = system_paths();
    let home = f1.home@;
    let sock_part: Seq<Seq<char>> = match host_var(f1, "SSH_AUTH_SOCK"@) {
        Some(s) => seq![s],
        None => Seq::empty(),
    };
    let mine = seq![state_file(home, h1.agent@), path_join(path_join(home, ".ssh"@), "known_hosts"@)];
    let certs = seq!["/etc/ssl/certs/ca-bundle.crt"@, "/etc/ssl/certs/ca-certificates.crt"@];
    assert(pr =~= seq![f1.nix_socket@] + sp + mine + sock_part + certs);
    assert(pr[0] == f1.nix_socket@);
    assert forall|j: int| 0 <= j < sp.len() implies on_host(f1, #[trigger] sp[j]) == on_host(f2, sp[j]) by {
        assert(pr[1 + j] == sp[j]);
    }
    lemma_ro_binds_agree(f1, f2, sp);
    let b: int = 1 + sp.len() as int;
    assert(pr[b] == mine[0]);
    assert(pr[b + 1] == mine[1]);
    let c = b + 2;
    match host_var(f1, "SSH_AUTH_SOCK"@) {
        Some(sk) => {
            assert(pr[c] == sk);
        },
        None => {},
    }
    let e: int = c + sock_part.len();
    assert(pr[e] == certs[0]);
    assert(pr[e + 1] == certs[1]);
    assert(nix_mounts(f1) == nix_mounts(f2));
    assert(agent_home_mounts(h1, o) == agent_home_mounts(h2, o));
    assert(worktree_mounts_with(f1, o.all_worktrees, false) == worktree_mounts_with(
        f2,
        o.all_worktrees,
        false,
    ));
    assert(agent_mounts(h1, o) == agent_mounts(h2, o));
    assert(cert_settings(f1) == cert_settings(f2));
    lemma_passed_agree(f1, f2, seq!["LOGNAME"@]);
    lemma_passed_agree(f1, f2, seq!["NIX_PATH"@]);
    lemma_passed_agree(f1, f2, terminal_vars());
    lemma_passed_agree(f1, f2, locale_vars());
    lemma_passed_agree(f1, f2, proxy_vars());
    lemma_passed_agree(f1, f2, provider_vars());
    lemma_passed_agree(f1, f2, seq!["SSH_AUTH_SOCK"@]);
    lemma_passed_agree(f1, f2, git_identity_vars());
    assert(core_env(f1) == core_env(f2));
    assert(agent_forwarded_env(h1) == agent_forwarded_env(h2));
    assert(agent_tail_env(h1, o) == agent_tail_env(h2, o));
    assert(agent_env(h1, o) == agent_env(h2, o));
}

} // verus!
