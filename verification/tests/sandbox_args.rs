use agentix::sandbox::{ax_jail_args, ax_jail_probes, AxJailOptions, HostFacts};

const SOCK: &str = "/nix/var/nix/daemon-socket/socket";

fn s(xs: &[&str]) -> Vec<String> {
    xs.iter().map(|x| x.to_string()).collect()
}

fn kv(xs: &[(&str, &str)]) -> Vec<(String, String)> {
    xs.iter().map(|(k, v)| (k.to_string(), v.to_string())).collect()
}

fn host() -> HostFacts {
    HostFacts {
        home: "/home/u".to_string(),
        cwd: "/work/p".to_string(),
        bin_dir: "/opt/bin".to_string(),
        nix_socket: SOCK.to_string(),
        present: s(&[SOCK, "/etc/hosts"]),
        env: kv(&[("USER", "u"), ("TERM", "xterm"), ("SECRET_TOKEN", "x")]),
        direnv: kv(&[("PATH", "/d/bin"), ("FOO", "bar")]),
        git: None,
    }
}

fn options() -> AxJailOptions {
    AxJailOptions {
        ro_paths: s(&["/data"]),
        rw_paths: vec![],
        all_worktrees: false,
        ax_args: s(&["--model", "m"]),
    }
}

fn has_run(args: &[String], run: &[&str]) -> bool {
    args.windows(run.len()).any(|w| w.iter().zip(run).all(|(a, b)| a == b))
}

#[test]
fn plain_directory_sandbox() {
    let args = ax_jail_args(&host(), &options());
    let expected = s(&[
        "--unshare-all", "--share-net", "--proc", "/proc", "--dev", "/dev", "--tmpfs", "/tmp",
        "--ro-bind", "/nix", "/nix",
        "--bind", SOCK, SOCK,
        "--ro-bind", "/etc/hosts", "/etc/hosts",
        "--tmpfs", "/home/u", "--ro-bind", "/opt/bin", "/home/u/bin",
        "--symlink", "/home/u/bin/bash", "/bin/sh",
        "--bind", "/home/u/.ax", "/home/u/.ax",
        "--dir", "/work", "--bind", "/work/p", "/work/p",
        "--dir", "/", "--ro-bind", "/data", "/data",
        "--clearenv",
        "--setenv", "HOME", "/home/u",
        "--setenv", "PATH", "/home/u/bin:/d/bin",
        "--setenv", "USER", "u",
        "--setenv", "NIX_REMOTE", "daemon",
        "--setenv", "NIX_DAEMON_SOCKET_PATH", SOCK,
        "--setenv", "NIX_CONFIG", "extra-experimental-features = nix-command flakes",
        "--setenv", "TERM", "xterm",
        "--setenv", "FOO", "bar",
        "--setenv", "TMPDIR", "/tmp",
        "--chdir", "/work/p", "--", "ax", "--model", "m",
    ]);
    assert_eq!(args, expected);
    // The host's other variables stay out.
    assert!(!args.iter().any(|a| a == "SECRET_TOKEN"));
}

#[test]
fn worktree_with_outside_git_dir() {
    let mut h = host();
    h.git = Some(("/repo/wt".to_string(), "/repo/.bare".to_string()));
    h.present = s(&["/repo/.bare/config"]);
    let args = ax_jail_args(&h, &options());
    assert!(has_run(&args, &["--dir", "/repo", "--bind", "/repo/wt", "/repo/wt",
        "--dir", "/repo", "--bind", "/repo/.bare", "/repo/.bare",
        "--tmpfs", "/repo/.bare/hooks",
        "--ro-bind", "/repo/.bare/config", "/repo/.bare/config"]));
    // Without the daemon socket on the host, it is not mounted.
    assert!(!has_run(&args, &["--bind", SOCK]));
}

#[test]
fn all_worktrees_mounts_the_parent_of_the_git_dir() {
    let mut h = host();
    h.git = Some(("/repo/wt".to_string(), "/repo/.bare".to_string()));
    let mut o = options();
    o.all_worktrees = true;
    let args = ax_jail_args(&h, &o);
    assert!(has_run(&args, &["--dir", "/", "--bind", "/repo", "/repo", "--tmpfs", "/repo/.bare/hooks"]));
    assert!(!has_run(&args, &["--bind", "/repo/.bare"]));
}

#[test]
fn git_dir_inside_the_worktree_is_not_mounted_twice() {
    let mut h = host();
    h.git = Some(("/w".to_string(), "/w/.git".to_string()));
    let args = ax_jail_args(&h, &options());
    assert!(has_run(&args, &["--dir", "/", "--bind", "/w", "/w", "--tmpfs", "/w/.git/hooks"]));
    assert!(!has_run(&args, &["--bind", "/w/.git"]));
}

#[test]
fn certificate_bundle_choice() {
    let mut h = host();
    h.env.push(("NIX_SSL_CERT_FILE".to_string(), "/c.pem".to_string()));
    let args = ax_jail_args(&h, &options());
    assert!(has_run(&args, &["--setenv", "NIX_SSL_CERT_FILE", "/c.pem", "--setenv", "SSL_CERT_FILE", "/c.pem"]));
    let mut h = host();
    h.present.push("/etc/ssl/certs/ca-certificates.crt".to_string());
    let args = ax_jail_args(&h, &options());
    assert!(has_run(&args, &["--setenv", "SSL_CERT_FILE", "/etc/ssl/certs/ca-certificates.crt"]));
    let args = ax_jail_args(&host(), &options());
    assert!(!args.iter().any(|a| a == "SSL_CERT_FILE"));
}

#[test]
fn ssh_agent_and_nix_config() {
    let mut h = host();
    h.env.push(("SSH_AUTH_SOCK".to_string(), "/run/agent".to_string()));
    h.env.push(("NIX_CONFIG".to_string(), "max-jobs = 2".to_string()));
    h.present.push("/run/agent".to_string());
    let args = ax_jail_args(&h, &options());
    assert!(has_run(&args, &["--bind", "/run/agent", "/run/agent"]));
    assert!(has_run(&args, &["--setenv", "SSH_AUTH_SOCK", "/run/agent"]));
    assert!(has_run(&args, &["--setenv", "NIX_CONFIG",
        "max-jobs = 2\nextra-experimental-features = nix-command flakes"]));
}

#[test]
fn probed_paths() {
    let mut h = host();
    h.git = Some(("/w".to_string(), "/w/.git".to_string()));
    let p = ax_jail_probes(&h);
    assert_eq!(p[0], SOCK);
    assert_eq!(p.len(), 1 + 13 + 3 + 1 + 2);
    assert!(p.contains(&"/home/u/.gitconfig".to_string()));
    assert!(p.contains(&"/home/u/.config/git".to_string()));
    assert!(p.contains(&"/home/u/.ssh/known_hosts".to_string()));
    assert!(p.contains(&"/w/.git/config".to_string()));
    assert_eq!(p[p.len() - 1], "/etc/ssl/certs/ca-certificates.crt");
}

#[test]
fn provider_credentials_stay_outside() {
    let mut h = host();
    for k in ["ANTHROPIC_API_KEY", "OPENAI_API_KEY", "OPENROUTER_API_KEY", "AGENTIX_API_KEY"] {
        h.env.push((k.to_string(), "secret".to_string()));
    }
    let args = ax_jail_args(&h, &options());
    assert!(!args.iter().any(|a| a == "secret" || a.ends_with("_API_KEY")));
}
