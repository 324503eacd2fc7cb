use agentix::agent_jail::{
    agent_env_prefix, agent_gitconfig, agent_jail_args, agent_jail_probes, agent_name,
    AgentJailHost, AgentJailOptions,
};
use agentix::sandbox::HostFacts;

const SOCK: &str = "/nix/var/nix/daemon-socket/socket";

fn strings(xs: &[&str]) -> Vec<String> {
    xs.iter().map(|x| x.to_string()).collect()
}

fn pairs(xs: &[(&str, &str)]) -> Vec<(String, String)> {
    xs.iter().map(|(k, v)| (k.to_string(), v.to_string())).collect()
}

fn agent_host() -> AgentJailHost {
    AgentJailHost {
        facts: HostFacts {
            home: "/home/u".to_string(),
            cwd: "/work/p".to_string(),
            bin_dir: "/opt/bin".to_string(),
            nix_socket: SOCK.to_string(),
            present: strings(&[SOCK, "/etc/hosts"]),
            env: pairs(&[
                ("USER", "u"),
                ("TERM", "xterm"),
                ("ANTHROPIC_API_KEY", "k"),
                ("CODEX_HOME_HINT", "h"),
                ("SECRET_TOKEN", "x"),
                ("SSH_AUTH_SOCK", "/run/ssh.sock"),
            ]),
            direnv: pairs(&[("PATH", "/d/bin"), ("FOO", "bar")]),
            git: None,
        },
        agent: "codex".to_string(),
        gitconfig: "/tmp/jail-git/gitconfig".to_string(),
        gh_socket: None,
    }
}

fn agent_options() -> AgentJailOptions {
    AgentJailOptions {
        ro_paths: vec![],
        rw_paths: strings(&["/data/out"]),
        all_worktrees: false,
        allow_ssh: false,
        dangerous: false,
    }
}

fn contains_run(args: &[String], run: &[&str]) -> bool {
    args.windows(run.len()).any(|w| w.iter().zip(run).all(|(a, b)| a == b))
}

#[test]
fn agent_sandbox_in_a_plain_directory() {
    let args = agent_jail_args(&agent_host(), &agent_options());
    let expected = strings(&[
        "--unshare-all", "--share-net", "--proc", "/proc", "--dev", "/dev", "--tmpfs", "/tmp",
        "--ro-bind", "/tmp/jail-git/gitconfig", "/tmp/gitconfig",
        "--ro-bind", "/nix", "/nix",
        "--bind", SOCK, SOCK,
        "--ro-bind", "/etc/hosts", "/etc/hosts",
        "--tmpfs", "/home/u", "--ro-bind", "/opt/bin", "/home/u/bin",
        "--symlink", "/home/u/bin/bash", "/bin/sh",
        "--bind", "/home/u/.codex", "/home/u/.codex",
        "--dir", "/work", "--bind", "/work/p", "/work/p",
        "--dir", "/data", "--bind", "/data/out", "/data/out",
        "--clearenv",
        "--setenv", "HOME", "/home/u",
        "--setenv", "PATH", "/home/u/bin:/d/bin",
        "--setenv", "USER", "u",
        "--setenv", "NIX_REMOTE", "daemon",
        "--setenv", "NIX_DAEMON_SOCKET_PATH", SOCK,
        "--setenv", "NIX_CONFIG", "extra-experimental-features = nix-command flakes",
        "--setenv", "TERM", "xterm",
        "--setenv", "ANTHROPIC_API_KEY", "k",
        "--setenv", "CODEX_HOME_HINT", "h",
        "--setenv", "GIT_CONFIG_GLOBAL", "/tmp/gitconfig",
        "--setenv", "FOO", "bar",
        "--setenv", "TMPDIR", "/tmp",
        "--chdir", "/work/p", "--", "codex",
    ]);
    assert_eq!(args, expected);
    assert!(!args.iter().any(|a| a == "SECRET_TOKEN"));
    assert!(!args.iter().any(|a| a == "SSH_AUTH_SOCK"));
}

#[test]
fn agent_ssh_forwarding_only_when_asked() {
    let mut h = agent_host();
    h.facts.present.push("/run/ssh.sock".to_string());
    let off = agent_jail_args(&h, &agent_options());
    assert!(!off.iter().any(|a| a == "/run/ssh.sock"));
    let mut o = agent_options();
    o.allow_ssh = true;
    let on = agent_jail_args(&h, &o);
    assert!(contains_run(&on, &["--bind", "/run/ssh.sock", "/run/ssh.sock"]));
    assert!(contains_run(&on, &["--setenv", "SSH_AUTH_SOCK", "/run/ssh.sock"]));
}

#[test]
fn agent_state_file_gh_socket_and_dangerous_mode() {
    let mut h = agent_host();
    h.facts.present.push("/home/u/.codex.json".to_string());
    h.gh_socket = Some("/tmp/jail-gh/gh.sock".to_string());
    let mut o = agent_options();
    o.dangerous = true;
    let args = agent_jail_args(&h, &o);
    assert!(contains_run(&args, &["--bind", "/home/u/.codex.json", "/home/u/.codex.json"]));
    assert!(contains_run(&args, &["--bind", "/tmp/jail-gh", "/tmp/jail-gh"]));
    assert!(contains_run(&args, &["--setenv", "GH_PROXY_SOCKET", "/tmp/jail-gh/gh.sock"]));
    let n = args.len();
    assert_eq!(&args[n - 3..], &strings(&["--", "codex", "--dangerously-skip-permissions"])[..]);
}

#[test]
fn agent_worktree_hooks_hidden_and_config_left_alone() {
    let mut h = agent_host();
    h.facts.git = Some(("/repo/wt".to_string(), "/repo/.bare".to_string()));
    h.facts.present = strings(&["/repo/.bare/config"]);
    let args = agent_jail_args(&h, &agent_options());
    assert!(contains_run(&args, &["--dir", "/repo", "--bind", "/repo/wt", "/repo/wt",
        "--dir", "/repo", "--bind", "/repo/.bare", "/repo/.bare",
        "--tmpfs", "/repo/.bare/hooks", "--dir", "/data"]));
    let mut o = agent_options();
    o.all_worktrees = true;
    let all = agent_jail_args(&h, &o);
    assert!(contains_run(&all, &["--dir", "/", "--bind", "/repo", "/repo",
        "--tmpfs", "/repo/.bare/hooks"]));
}

#[test]
fn agent_probes() {
    let probes = agent_jail_probes(&agent_host());
    assert_eq!(probes[0], SOCK);
    assert!(probes.contains(&"/home/u/.codex.json".to_string()));
    assert!(probes.contains(&"/home/u/.ssh/known_hosts".to_string()));
    assert!(probes.contains(&"/run/ssh.sock".to_string()));
    assert_eq!(probes.last().unwrap(), "/etc/ssl/certs/ca-certificates.crt");
}

#[test]
fn agent_named_by_the_launcher() {
    assert_eq!(agent_name("codex-jail"), Some("codex".to_string()));
    assert_eq!(agent_name("-jail"), None);
    assert_eq!(agent_name("codex"), None);
    assert_eq!(agent_env_prefix("codex"), "CODEX_");
    assert_eq!(agent_env_prefix("gpt4"), "GPT4_");
}

#[test]
fn agent_gitconfig_defaults_to_the_agent() {
    let c = agent_gitconfig("codex", None, None);
    assert!(c.starts_with("[user]\n\tname = Codex\n\temail = codex@localhost\n[commit]"));
    let d = agent_gitconfig("codex", Some("Ann"), Some("ann@x.org"));
    assert!(d.starts_with("[user]\n\tname = Ann\n\temail = ann@x.org\n"));
}
