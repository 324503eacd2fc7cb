use agentix::gh_policy::{refusal_reply, api_path_repo, check_allowed, check_repo_allowed, find_flag};
use agentix::jail::{
    allowed_repos, gh_server_args, git_config_value, gitconfig_contents, github_slug, jail_path,
    nix_config,
};

fn args(xs: &[&str]) -> Vec<String> {
    xs.iter().map(|s| s.to_string()).collect()
}

#[test]
fn no_subcommand_is_refused() {
    assert_eq!(check_allowed(&[], true, &[]), Err("no subcommand given".to_string()));
}

#[test]
fn credential_commands_are_always_refused() {
    for sub in ["auth", "ssh-key", "gpg-key", "config", "extension", "alias"] {
        let r = check_allowed(&args(&[sub, "status"]), true, &[]);
        assert_eq!(r, Err(format!("'{sub}' is not permitted in the jail")));
    }
}

#[test]
fn repo_subcommand_is_read_only() {
    assert_eq!(check_allowed(&args(&["repo", "view"]), false, &[]), Ok(()));
    assert_eq!(
        check_allowed(&args(&["repo", "delete", "x/y"]), true, &[]),
        Err("'repo delete' is not permitted (allowed: view, list, clone, sync)".to_string())
    );
    assert_eq!(
        check_allowed(&args(&["repo"]), true, &[]),
        Err("'repo ' is not permitted (allowed: view, list, clone, sync)".to_string())
    );
}

#[test]
fn release_writes_need_the_write_flag() {
    assert_eq!(
        check_allowed(&args(&["release", "create", "v1"]), false, &[]),
        Err("'release create' requires the --write flag".to_string())
    );
    assert_eq!(check_allowed(&args(&["release", "create", "v1"]), true, &[]), Ok(()));
    assert_eq!(check_allowed(&args(&["release", "list"]), false, &[]), Ok(()));
}

#[test]
fn api_methods_other_than_get_need_the_write_flag() {
    assert_eq!(check_allowed(&args(&["api", "/user"]), false, &[]), Ok(()));
    assert_eq!(check_allowed(&args(&["api", "-X", "get", "/user"]), false, &[]), Ok(()));
    assert_eq!(
        check_allowed(&args(&["api", "--method=POST", "/repos/a/b/issues"]), false, &[]),
        Err("'api --method POST' requires the --write flag".to_string())
    );
    assert_eq!(check_allowed(&args(&["api", "-X", "POST", "/user"]), true, &[]), Ok(()));
}

#[test]
fn api_paths_are_held_to_the_allowed_repos() {
    let allowed = args(&["Me/Proj"]);
    assert_eq!(check_allowed(&args(&["api", "/repos/me/proj/pulls"]), false, &allowed), Ok(()));
    assert_eq!(
        check_allowed(&args(&["api", "repos/other/x"]), false, &allowed),
        Err("repo 'other/x' is not in the allowed list (Me/Proj)".to_string())
    );
}

#[test]
fn repo_flags_are_held_to_the_allowed_repos() {
    let allowed = args(&["me/a", "me/b"]);
    assert_eq!(check_allowed(&args(&["pr", "list", "-R", "ME/B"]), false, &allowed), Ok(()));
    assert_eq!(
        check_allowed(&args(&["pr", "list", "--repo=x/y"]), false, &allowed),
        Err("repo 'x/y' is not in the allowed list (me/a, me/b)".to_string())
    );
    assert_eq!(check_allowed(&args(&["pr", "list", "--repo=x/y"]), false, &[]), Ok(()));
}

#[test]
fn repo_allow_list() {
    assert_eq!(check_repo_allowed("any/thing", &[]), Ok(()));
    assert_eq!(check_repo_allowed("a/B", &args(&["A/b"])), Ok(()));
    assert!(check_repo_allowed("a/c", &args(&["a/b"])).is_err());
}

#[test]
fn api_path_repos() {
    assert_eq!(api_path_repo(&args(&["api", "--paginate", "//repos/o/r/pulls"])), Some("o/r".to_string()));
    // Flag values are not the path.
    assert_eq!(api_path_repo(&args(&["api", "--method", "GET", "/repos/o/r/pulls"])), Some("o/r".to_string()));
    assert_eq!(api_path_repo(&args(&["api", "-q", ".[0]", "/repos/o/r/pulls"])), Some("o/r".to_string()));
    assert_eq!(api_path_repo(&args(&["api", "-XGET", "/repos/o/r/pulls"])), Some("o/r".to_string()));
    assert_eq!(api_path_repo(&args(&["api", "/repos/o/r/pulls"])), Some("o/r".to_string()));
    assert_eq!(api_path_repo(&args(&["api", "/user"])), None);
    assert_eq!(api_path_repo(&args(&["api", "/repos/o"])), None);
    assert_eq!(api_path_repo(&args(&["api", "repos/o"])), None);
    assert_eq!(api_path_repo(&args(&["api", "/user", "/repos/o/r"])), None);
    assert_eq!(api_path_repo(&args(&["api", "/repos/o/"])), Some("o/".to_string()));
    assert_eq!(api_path_repo(&args(&["api"])), None);
}

#[test]
fn flags_and_values() {
    let a = args(&["pr", "--repo", "o/r"]);
    assert_eq!(find_flag(&a, &["-R", "--repo"]), Some("o/r"));
    let a = args(&["pr", "-R=o/r"]);
    assert_eq!(find_flag(&a, &["-R", "--repo"]), Some("o/r"));
    let a = args(&["pr", "-R"]);
    assert_eq!(find_flag(&a, &["-R", "--repo"]), None);
    let a = args(&["pr", "list"]);
    assert_eq!(find_flag(&a, &["-R", "--repo"]), None);
}

#[test]
fn github_slugs_from_remote_urls() {
    assert_eq!(github_slug("git@github.com:me/proj.git\n").as_deref(), Some("me/proj"));
    assert_eq!(github_slug("https://github.com/me/proj").as_deref(), Some("me/proj"));
    assert_eq!(github_slug("https://github.com/me/proj.git.git").as_deref(), Some("me/proj"));
    assert_eq!(github_slug("https://gitlab.com/me/proj.git"), None);
}

#[test]
fn gh_server_command_line() {
    let repos = args(&["a/b", "c/d"]);
    assert_eq!(
        gh_server_args("/tmp/s.sock", true, &repos),
        vec!["--socket", "/tmp/s.sock", "--write", "--repo", "a/b", "--repo", "c/d"]
    );
    assert_eq!(gh_server_args("/s", false, &[]), vec!["--socket", "/s"]);
}

#[test]
fn refused_requests_get_a_gh_style_reply() {
    let args = vec!["auth".to_string(), "login".to_string()];
    let rep = refusal_reply(&args, false, &[]).unwrap();
    assert_eq!(rep.stdout, "");
    assert_eq!(rep.stderr, "gh: 'auth' is not permitted in the jail\n");
    assert_eq!(rep.exit_code, 1);
    let ok = vec!["pr".to_string(), "list".to_string()];
    assert!(refusal_reply(&ok, false, &[]).is_none());
}

#[test]
fn sandbox_gitconfig() {
    let c = gitconfig_contents("Ada", "ada@example.org");
    assert_eq!(
        c,
        "[user]\n\tname = Ada\n\temail = ada@example.org\n\
         [commit]\n\tgpgsign = false\n\
         [tag]\n\tgpgsign = false\n\
         [credential \"https://github.com\"]\n\thelper = gh auth git-credential\n\
         [url \"https://github.com/\"]\n\tinsteadOf = git@github.com:\n"
    );
}

#[test]
fn git_config_values_are_trimmed() {
    assert_eq!(git_config_value("Ada Lovelace\n"), Some("Ada Lovelace".to_string()));
    assert_eq!(git_config_value("  \n"), None);
    assert_eq!(git_config_value(""), None);
}

#[test]
fn every_github_remote_is_allowed_once() {
    let remotes = vec![
        "git@github.com:user/fork.git\n".to_string(),
        "https://github.com/org/canonical.git".to_string(),
        "git@gitlab.example.com:user/repo.git".to_string(),
        "https://github.com/user/fork".to_string(),
    ];
    let asked = vec!["other/repo".to_string(), "org/canonical".to_string()];
    assert_eq!(
        allowed_repos(&remotes, &asked),
        vec!["user/fork".to_string(), "org/canonical".to_string(), "other/repo".to_string()]
    );
    assert!(allowed_repos(&[], &[]).is_empty());
    assert_eq!(
        allowed_repos(&["git@gitlab.com:a/b.git".to_string()], &["x/y".to_string()]),
        vec!["x/y".to_string()]
    );
}

#[test]
fn sandbox_environment_values() {
    assert_eq!(jail_path("/home/u", None), "/home/u/bin");
    assert_eq!(jail_path("/home/u", Some("/nix/store/x/bin:/usr/bin")), "/home/u/bin:/nix/store/x/bin:/usr/bin");
    assert_eq!(nix_config(""), "extra-experimental-features = nix-command flakes");
    assert_eq!(
        nix_config("max-jobs = 4"),
        "max-jobs = 4\nextra-experimental-features = nix-command flakes"
    );
}

#[test]
fn mutating_api_calls_need_write_mode() {
    assert!(check_allowed(&args(&["api", "-XPOST", "/user"]), false, &[]).is_err());
    assert!(check_allowed(&args(&["api", "-X=POST", "/user"]), false, &[]).is_err());
    assert!(check_allowed(&args(&["api", "repos/o/r/issues", "-f", "title=x"]), false, &[]).is_err());
    assert!(check_allowed(&args(&["api", "repos/o/r/issues", "--raw-field=title=x"]), false, &[]).is_err());
    assert!(check_allowed(&args(&["api", "repos/o/r/issues", "-Ftitle=x"]), false, &[]).is_err());
    assert!(check_allowed(&args(&["api", "graphql", "--input", "q.json"]), false, &[]).is_err());
    assert_eq!(
        check_allowed(&args(&["api", "repos/o/r/issues", "-f", "title=x"]), false, &[]),
        Err("'api --method POST' requires the --write flag".to_string())
    );
    // An explicit GET with fields stays a GET.
    assert!(check_allowed(&args(&["api", "-X", "GET", "search/issues", "-f", "q=x"]), false, &[]).is_ok());
    assert!(check_allowed(&args(&["api", "-XPOST", "/user"]), true, &[]).is_ok());
    assert!(check_allowed(&args(&["api", "/user"]), false, &[]).is_ok());
}

#[test]
fn api_paths_after_flag_values_are_checked() {
    let allowed = args(&["me/r"]);
    assert!(check_allowed(&args(&["api", "--method", "GET", "/repos/o/r/pulls"]), false, &allowed).is_err());
    assert!(check_allowed(&args(&["api", "--method", "GET", "/repos/me/r/pulls"]), false, &allowed).is_ok());
}

#[test]
fn positional_repositories_are_checked() {
    let allowed = args(&["me/r"]);
    assert!(check_allowed(&args(&["repo", "view", "evil/x"]), false, &allowed).is_err());
    assert!(check_allowed(&args(&["repo", "clone", "evil/x"]), false, &allowed).is_err());
    assert!(check_allowed(&args(&["repo", "clone", "https://github.com/evil/x.git"]), false, &allowed).is_err());
    assert!(check_allowed(&args(&["repo", "sync", "me/r", "--source", "evil/x"]), false, &allowed).is_err());
    assert_eq!(
        check_allowed(&args(&["repo", "view", "evil/x"]), false, &allowed),
        Err("repo 'evil/x' is not in the allowed list (me/r)".to_string())
    );
    assert!(check_allowed(&args(&["repo", "view", "ME/r"]), false, &allowed).is_ok());
    assert!(check_allowed(&args(&["repo", "clone", "git@github.com:me/r.git", "dir"]), false, &allowed).is_ok());
    assert!(check_allowed(&args(&["repo", "view", "--json", "name", "me/r"]), false, &allowed).is_ok());
    assert!(check_allowed(&args(&["repo", "view"]), false, &allowed).is_ok());
    // Any repository may be named when the list is empty.
    assert!(check_allowed(&args(&["repo", "view", "evil/x"]), false, &[]).is_ok());
}

#[test]
fn attached_short_flag_values() {
    assert_eq!(find_flag(&args(&["pr", "-Ro/r"]), &["-R", "--repo"]), Some("o/r"));
    assert!(check_allowed(&args(&["pr", "list", "-Revil/x"]), false, &args(&["me/r"])).is_err());
}
