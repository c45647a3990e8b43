use purview::diff::DiffSource;
use purview::repo::ssh::{
    branch, compute_full, failure, list_all_files, list_dir, local_state_base, port_arg,
    shell_quote, untracked_to_read, SshRepo, SshTarget,
};
use purview::repo::{base_candidates, guess_default_base};

#[test]
fn parse_host_only() {
    let t = SshTarget::parse("ssh://host/p").unwrap();
    assert_eq!(t.user, None);
    assert_eq!(t.host, "host");
    assert_eq!(t.port, None);
    assert_eq!(t.path, "/p");
}

#[test]
fn parse_user_at_host() {
    let t = SshTarget::parse("ssh://user@host/p").unwrap();
    assert_eq!(t.user.as_deref(), Some("user"));
    assert_eq!(t.host, "host");
    assert_eq!(t.port, None);
    assert_eq!(t.path, "/p");
}

#[test]
fn parse_user_host_port() {
    let t = SshTarget::parse("ssh://user@host:2222/p").unwrap();
    assert_eq!(t.user.as_deref(), Some("user"));
    assert_eq!(t.host, "host");
    assert_eq!(t.port, Some(2222));
    assert_eq!(t.path, "/p");
}

#[test]
fn parse_deep_path_preserved() {
    let t = SshTarget::parse("ssh://h/home/user/code/repo").unwrap();
    assert_eq!(t.path, "/home/user/code/repo");
    assert_eq!(t.host, "h");
}

#[test]
fn non_ssh_is_none() {
    assert!(SshTarget::parse("/local/path").is_none());
    assert!(SshTarget::parse("./rel").is_none());
    assert!(SshTarget::parse("ssh://host").is_none()); // no path
    assert!(SshTarget::parse("ssh:///p").is_none()); // no authority
}

#[test]
fn shell_quote_escapes_single_quotes() {
    assert_eq!(shell_quote("a b"), "'a b'");
    assert_eq!(shell_quote("it's"), "'it'\\''s'");
}

/// The emitted `--unified` value must be clamped — never u32::MAX (which
/// the remote git CLI mishandles) — yet still large enough to span any
/// real file.
#[test]
fn diff_args_clamps_full_context_below_u32_max() {
    let args = SshRepo::diff_args(DiffSource::WorkingTree, "main", u32::MAX, None);
    let unified = args
        .iter()
        .find(|a| a.starts_with("--unified="))
        .expect("a --unified arg is emitted");
    let n: u64 = unified
        .strip_prefix("--unified=")
        .unwrap()
        .parse()
        .expect("--unified value is numeric");
    assert!(
        n < u32::MAX as u64,
        "context must be clamped below u32::MAX, got {n}"
    );
    // Still huge, so it really does span any real file.
    assert!(n >= 1_000_000, "clamped value must still be large, got {n}");
    assert_eq!(unified, "--unified=1000000000");
}

/// A normal (small) context value passes through untouched.
#[test]
fn diff_args_small_context_passes_through() {
    let args = SshRepo::diff_args(DiffSource::WorkingTree, "main", 3, None);
    assert!(args.contains(&"--unified=3".to_string()));
}

/// WorkingTree vs BranchRange produce the right rev arguments, and a
/// pathspec is appended after `--`.
#[test]
fn diff_args_source_and_pathspec() {
    let wt = SshRepo::diff_args(DiffSource::WorkingTree, "main", 3, None);
    assert!(wt.contains(&"HEAD".to_string()));
    assert!(!wt.iter().any(|a| a.contains("...")));

    let br = SshRepo::diff_args(DiffSource::BranchRange, "main", 3, None);
    assert!(br.contains(&"main...HEAD".to_string()));

    let with_path = SshRepo::diff_args(DiffSource::WorkingTree, "main", 3, Some("src/a.rs"));
    let dd = with_path.iter().position(|a| a == "--").unwrap();
    assert_eq!(with_path[dd + 1], "src/a.rs");
}

fn repo() -> SshRepo {
    SshRepo {
        target: SshTarget::parse("ssh://me@host:2222/srv/it's").unwrap(),
        ctl_dir: "/tmp/ctl".into(),
        state_root: "/tmp/state".into(),
    }
}

#[test]
fn destination_and_port() {
    let t = SshTarget::parse("ssh://me@host:2222/p").unwrap();
    assert_eq!(t.destination(), "me@host");
    assert_eq!(port_arg(&t), ["-p", "2222"]);
    let t = SshTarget::parse("ssh://host/p").unwrap();
    assert_eq!(t.destination(), "host");
    assert!(port_arg(&t).is_empty());
}

#[test]
fn a_tail_that_is_no_port_belongs_to_the_host() {
    let t = SshTarget::parse("ssh://host:99999/p").unwrap();
    assert_eq!((t.host.as_str(), t.port), ("host:99999", None));
    let t = SshTarget::parse("ssh://me@::1/p").unwrap();
    assert_eq!((t.host.as_str(), t.port), (":", Some(1)));
    assert!(SshTarget::parse("ssh://me@/p").is_none());
    assert!(SshTarget::parse("ssh://:22/p").is_none());
}

#[test]
fn every_call_shares_the_one_connection() {
    let opts = [
        "-o",
        "ControlMaster=auto",
        "-o",
        "ControlPath=/tmp/ctl/ctl",
        "-o",
        "ControlPersist=60s",
        "-o",
        "BatchMode=yes",
    ];
    let r = repo();
    assert_eq!(r.mux_opts(), opts);
    let mut master = opts.to_vec();
    master.extend(["-M", "-N", "-f", "me@host", "-p", "2222"]);
    assert_eq!(r.master_args(), master);
    let mut remote = opts.to_vec();
    remote.extend(["-p", "2222", "me@host", "true"]);
    assert_eq!(r.remote_args("true"), remote);
    assert_eq!(
        r.exit_args(),
        ["-o", "ControlPath=/tmp/ctl/ctl", "-p", "2222", "-O", "exit", "me@host"]
    );
}

#[test]
fn remote_commands_quote_what_they_are_given() {
    let r = repo();
    let cd = "cd '/srv/it'\\''s' && ";
    assert_eq!(
        r.git_command(&["diff".to_string(), "a b".to_string()]),
        format!("{cd}git 'diff' 'a b'")
    );
    assert_eq!(
        r.agent_command("agent"),
        format!("{cd}agent '-p' '--model' 'agent-haiku-4-5-20251001'")
    );
    assert_eq!(r.label(), "ssh://host/srv/it's");
    assert!(r.read_command("a b").contains("'/srv/it'\\''s/a b'"));
    assert!(r.list_command("sub").contains("sub"));
    assert!(r.write_command("x").contains("mv "));
}

#[test]
fn persisting_keeps_the_state_out_of_the_remote_history() {
    let cmd = repo().persist_command("reviews/main__HEAD.json");
    assert!(cmd.starts_with("mkdir -p '/srv/it'\\''s/.purview/reviews' && "));
    assert!(cmd.contains("|| echo '*' > '/srv/it'\\''s/.purview/.gitignore'"));
    assert!(cmd.ends_with(" '/srv/it'\\''s/.purview/reviews/main__HEAD.json'"));
}

#[test]
fn mirrors_are_keyed_by_host_and_path() {
    let t = SshTarget::parse("ssh://h/home/user/repo").unwrap();
    assert_eq!(SshRepo::mirror_dir(&t), "h_home_user_repo");
    assert_eq!(
        local_state_base(Some("/c"), Some("/h"), "/t"),
        "/c/purview/ssh"
    );
    assert_eq!(local_state_base(None, Some("/h"), "/t"), "/h/.cache/purview/ssh");
    assert_eq!(local_state_base(None, None, "/t"), "/t/purview/ssh");
}

#[test]
fn a_target_has_to_be_a_work_tree() {
    let t = SshTarget::parse("ssh://me@h/p").unwrap();
    assert_eq!(t.check_work_tree("true\n"), Ok(()));
    assert_eq!(
        t.check_work_tree("false\n"),
        Err("/p on h is not a git work tree".to_string())
    );
    assert_eq!(
        t.unreachable_message(),
        "ssh: could not open connection to me@h (check host/key)"
    );
}

#[test]
fn failures_show_the_first_line_of_stderr() {
    assert_eq!(
        failure("remote command failed", "\nfatal: no\nmore\n"),
        "remote command failed: fatal: no"
    );
    assert_eq!(failure("x", "  \n"), "x: (no stderr)");
}

#[test]
fn a_detached_head_is_called_so() {
    assert_eq!(branch("feature\n"), "feature");
    assert_eq!(branch("HEAD\n"), "(detached)");
}

#[test]
fn shell_quoting_is_undone_by_a_shell() {
    // Adjacent quoted parts and an escaped quote, as a POSIX shell reads them.
    fn unquote(s: &str) -> String {
        let mut out = String::new();
        let mut inside = false;
        let mut it = s.chars();
        while let Some(c) = it.next() {
            match c {
                '\'' => inside = !inside,
                '\\' if !inside => out.push(it.next().unwrap()),
                c => out.push(c),
            }
        }
        assert!(!inside);
        out
    }
    for s in ["", "plain", "it's", "''", "a\nb", "$(x) `y` \\ \"z\""] {
        assert_eq!(unquote(&shell_quote(s)), s);
    }
}

#[test]
fn a_listing_is_directories_first_and_without_git() {
    let entries = list_dir("src", "b.rs\nlib/\n.git/\na.rs\n\n");
    let got: Vec<(&str, &str, bool)> = entries
        .iter()
        .map(|e| (e.name.as_str(), e.rel.as_str(), e.is_dir))
        .collect();
    assert_eq!(
        got,
        [
            ("lib", "src/lib", true),
            ("a.rs", "src/a.rs", false),
            ("b.rs", "src/b.rs", false),
        ]
    );
    assert_eq!(list_dir("", "x\n")[0].rel, "x");
}

#[test]
fn all_files_are_capped_and_without_repeats() {
    let (files, cut) = list_all_files("b\na\na\nc\n", 10);
    assert_eq!(files, ["a", "b", "c"]);
    assert!(!cut);
    let (files, cut) = list_all_files("b\na\nc\n", 2);
    assert_eq!(files, ["a", "b"]);
    assert!(cut);
}

#[test]
fn untracked_files_are_only_read_for_the_working_tree() {
    let listing = "new.txt\nother.txt\n";
    assert_eq!(
        untracked_to_read(DiffSource::WorkingTree, listing, None),
        ["new.txt", "other.txt"]
    );
    assert_eq!(
        untracked_to_read(DiffSource::WorkingTree, listing, Some("other.txt")),
        ["other.txt"]
    );
    assert!(untracked_to_read(DiffSource::BranchRange, listing, None).is_empty());
}

#[test]
fn a_remote_diff_has_the_untracked_files_too() {
    let patch = "diff --git a/f.txt b/f.txt\n--- a/f.txt\n+++ b/f.txt\n@@ -1,1 +1,1 @@\n-a\n+b\n";
    let (branch, files) = compute_full(
        "main\n",
        patch,
        &["new.txt".to_string()],
        &[Some("one\ntwo\n".to_string())],
    )
    .unwrap();
    assert_eq!(branch, "main");
    let paths: Vec<&str> = files.iter().map(|f| f.path.as_str()).collect();
    assert_eq!(paths, ["f.txt", "new.txt"]);
    assert_eq!(files[1].hunks[0].header, "@@ -0,0 +1,2 @@");
    assert_eq!(files[1].hunks[0].rows[1].new_lineno, Some(2));
}

#[test]
fn the_base_is_the_first_branch_that_exists() {
    assert_eq!(base_candidates(), ["main", "master", "develop", "trunk"]);
    assert_eq!(guess_default_base(None, &[false, false, true, true]), "develop");
    assert_eq!(guess_default_base(None, &[false, false, false, false]), "main");
    assert_eq!(guess_default_base(Some("origin/dev\n"), &[true]), "origin/dev");
    assert_eq!(guess_default_base(Some("\n"), &[false, true]), "master");
}

#[test]
fn the_url_of_a_target_reads_back() {
    for (user, host, port) in [
        (None, "h", None),
        (Some("u"), "h", Some(0)),
        (Some(""), "h@x", Some(65535)),
        (None, "a:b", None),
        (None, "a:1", Some(22)),
    ] {
        let target = SshTarget {
            user: user.map(String::from),
            host: host.into(),
            port,
            path: "/p:1/q@r".into(),
        };
        let port = port.map(|p| format!(":{p}")).unwrap_or_default();
        let url = format!("ssh://{}{port}{}", target.destination(), target.path);
        assert_eq!(SshTarget::parse(&url), Some(target));
    }
}
