use oxi::git::{
    author_identity_error, commit_view_text, configured_author, log_commit, push_patch_line,
    repo_snapshot, sorted_branch_names, RepoListing,
    LOG_LIMIT,
    MAX_DIFF_CHARS,
};
use oxi::git::{
    branch_for_sync, branch_reference, busy_state, choose_remote_credential, commit_diff_text,
    commit_message, commit_needs_unstaged_diff, default_upstream, diff_title_for,
    entries_from_statuses, hunk_line_changes, label_op, merge_commit_message, non_repo,
    pull_conflict_message, pull_overwrite_message, push_refspec, remote_error_message, truncate,
    untracked_line_changes, FileStatus, GitLineChange, GitLineKind, GitOp, GitState,
    RemoteCredential, StatusItem,
};

fn clean() -> FileStatus {
    FileStatus {
        index_new: false,
        index_modified: false,
        index_deleted: false,
        index_renamed: false,
        index_typechange: false,
        wt_new: false,
        wt_modified: false,
        wt_deleted: false,
        wt_renamed: false,
        wt_typechange: false,
        conflicted: false,
    }
}

#[test]
fn operation_labels() {
    assert_eq!(label_op(&GitOp::Refresh), "refresh");
    assert_eq!(label_op(&GitOp::NewBranch("x".into())), "new branch");
    assert_eq!(label_op(&GitOp::ShowCommit("abc".into())), "show");
    assert_eq!(
        label_op(&GitOp::ShowDiff {
            path: "a".into(),
            staged: true
        }),
        "diff"
    );
    assert_eq!(label_op(&GitOp::CollectCommitDiff), "diff");
    assert_eq!(label_op(&GitOp::SetCwd("/".into())), "switch");
}

#[test]
fn empty_and_busy_states() {
    let s = non_repo(Some("Bare repositories are not supported".into()));
    assert!(!s.repo);
    assert!(!s.busy);
    assert_eq!(s.error.as_deref(), Some("Bare repositories are not supported"));
    assert!(s.staged.is_empty() && s.line_changes.is_empty());
    let b = busy_state("pull");
    assert!(b.busy);
    assert_eq!(b.last_op.as_deref(), Some("pull"));
    let d = GitState::default();
    assert!(d.error.is_none() && d.last_op.is_none());
}

#[test]
fn statuses_split_into_staged_and_unstaged() {
    let files = vec![
        StatusItem {
            path: "new.rs".into(),
            status: FileStatus { index_new: true, wt_modified: true, ..clean() },
        },
        StatusItem {
            path: "untracked.txt".into(),
            status: FileStatus { wt_new: true, ..clean() },
        },
        StatusItem {
            path: "both.rs".into(),
            status: FileStatus { conflicted: true, ..clean() },
        },
        StatusItem { path: "clean.rs".into(), status: clean() },
    ];
    let (staged, unstaged) = entries_from_statuses(&files);
    assert_eq!(staged.len(), 1);
    assert_eq!(staged[0].path, "new.rs");
    assert_eq!(staged[0].code, "A ");
    assert_eq!(staged[0].status, 'A');
    assert_eq!(unstaged.len(), 3);
    assert_eq!((unstaged[0].code.as_str(), unstaged[0].status), (" M", 'M'));
    assert_eq!((unstaged[1].code.as_str(), unstaged[1].status), (" ?", '?'));
    assert_eq!((unstaged[2].code.as_str(), unstaged[2].status), (" U", 'U'));
    assert!(unstaged[2].conflict);
}

#[test]
fn hunks_mark_lines() {
    assert_eq!(
        hunk_line_changes(0, 3, 2),
        vec![
            GitLineChange { line: 2, kind: GitLineKind::Added },
            GitLineChange { line: 3, kind: GitLineKind::Added },
        ]
    );
    assert_eq!(
        hunk_line_changes(4, 1, 1),
        vec![GitLineChange { line: 0, kind: GitLineKind::Modified }]
    );
    assert!(hunk_line_changes(2, 7, 0).is_empty());
    assert_eq!(hunk_line_changes(0, 0, 1), vec![GitLineChange { line: 0, kind: GitLineKind::Added }]);
    assert_eq!(hunk_line_changes(1, u32::MAX - 1, 5).len(), 1);
}

#[test]
fn untracked_files_are_all_added() {
    assert_eq!(untracked_line_changes("a\nb\n").len(), 3);
    assert_eq!(untracked_line_changes("").len(), 1);
    assert_eq!(
        untracked_line_changes("x\ny"),
        vec![
            GitLineChange { line: 0, kind: GitLineKind::Added },
            GitLineChange { line: 1, kind: GitLineKind::Added },
        ]
    );
}

#[test]
fn long_diffs_are_truncated() {
    assert_eq!(truncate("short", 10), "short");
    assert_eq!(truncate("abcdef", 3), "abc\n\u{2026} [truncated]\n");
    assert_eq!(truncate("\u{e9}\u{e9}\u{e9}", 3), "\u{e9}\u{e9}\u{e9}");
}

#[test]
fn diff_titles_and_commit_diffs() {
    assert_eq!(diff_title_for("src/a.rs", true), "Staged: src/a.rs");
    assert_eq!(diff_title_for("src/a.rs", false), "src/a.rs");
    assert!(commit_needs_unstaged_diff("  \n"));
    assert!(!commit_needs_unstaged_diff("+x"));
    assert_eq!(commit_diff_text("+staged".into(), None).as_deref(), Some("+staged"));
    assert_eq!(commit_diff_text(" ".into(), Some("+wt".into())).as_deref(), Some("+wt"));
    assert_eq!(commit_diff_text("".into(), Some("\n".into())), None);
    assert_eq!(commit_diff_text("".into(), None), None);
}

#[test]
fn commit_and_branch_inputs_are_checked() {
    assert_eq!(commit_message("  fix bug \n"), Ok("fix bug".to_string()));
    assert_eq!(commit_message("   "), Err("Commit message is empty".to_string()));
    assert_eq!(branch_reference("feature"), Ok("refs/heads/feature".to_string()));
    assert_eq!(branch_reference(" "), Err("Branch name is empty".to_string()));
    assert_eq!(branch_for_sync("main", true), Ok(()));
    assert_eq!(branch_for_sync("HEAD", true), Err("Cannot push while HEAD is detached".to_string()));
    assert_eq!(branch_for_sync("", false), Err("Cannot pull while HEAD is detached".to_string()));
    assert_eq!(push_refspec("dev"), "refs/heads/dev:refs/heads/dev");
    assert_eq!(default_upstream("dev"), "origin/dev");
}

#[test]
fn remote_failures_are_explained() {
    let no_token = remote_error_message(
        "https://github.com/o/r.git",
        "push",
        true,
        "auth failed",
        "auth failed; class=Http (34)",
        "  ",
    );
    assert!(no_token.starts_with("GitHub rejected push: no token is configured."));
    let with_token = remote_error_message(
        "https://github.com/o/r.git",
        "push",
        false,
        "unexpected http status code: 403",
        "x",
        "ghp_1",
    );
    assert!(with_token.starts_with("GitHub rejected push with HTTP 403."));
    assert!(with_token.ends_with("Remote: https://github.com/o/r.git"));
    let other = remote_error_message(
        "git@example.com:o/r.git",
        "fetch",
        true,
        "denied",
        "denied; class=Ssh (23)",
        "",
    );
    assert_eq!(other, "fetch failed for git@example.com:o/r.git: denied; class=Ssh (23)");
}

#[test]
fn credentials_offered_to_remotes() {
    match choose_remote_credential("https://github.com/o/r.git", "octo", "tok", None, true, true, true) {
        RemoteCredential::UserPass { username, token } => {
            assert_eq!(username, "octo");
            assert_eq!(token, "tok");
        }
        _ => panic!("expected user/pass"),
    }
    match choose_remote_credential("https://alice@github.com/o/r.git", "", "tok", None, true, false, false) {
        RemoteCredential::UserPass { username, .. } => assert_eq!(username, "alice"),
        _ => panic!("expected user/pass"),
    }
    match choose_remote_credential("https://github.com/o/r.git", "", "tok", None, true, false, false) {
        RemoteCredential::UserPass { username, .. } => assert_eq!(username, "x-access-token"),
        _ => panic!("expected user/pass"),
    }
    match choose_remote_credential("ssh://git@host/r", "", "", Some("git"), true, true, true) {
        RemoteCredential::SshAgent { username } => assert_eq!(username, "git"),
        _ => panic!("expected ssh agent"),
    }
    match choose_remote_credential("https://h/r", "", "", Some("bob"), false, false, true) {
        RemoteCredential::Username { username } => assert_eq!(username, "bob"),
        _ => panic!("expected user name"),
    }
    assert!(matches!(
        choose_remote_credential("https://h/r", "", "", None, false, false, false),
        RemoteCredential::DefaultCredential
    ));
}

#[test]
fn pull_messages() {
    assert_eq!(
        pull_overwrite_message("origin/main", "conflict"),
        "Cannot pull: your local changes to files updated by origin/main would be overwritten. Commit, stash, or discard them first. (conflict)"
    );
    assert!(pull_conflict_message("origin/main").starts_with("Local and origin/main have conflicting changes."));
    assert_eq!(merge_commit_message("origin/main", "main"), "Merge origin/main into main");
}

#[test]
fn log_commit_fills_missing_author_and_summary() {
    let c = log_commit("abc".into(), "2024-01-02".into(), None, None);
    assert_eq!(c.hash, "abc");
    assert_eq!(c.date, "2024-01-02");
    assert_eq!(c.author, "Unknown");
    assert_eq!(c.message, "");
    let c = log_commit("d".into(), "".into(), Some("Ada"), Some("Fix it"));
    assert_eq!(c.author, "Ada");
    assert_eq!(c.message, "Fix it");
    assert_eq!(LOG_LIMIT, 60);
}

#[test]
fn commit_view_has_git_show_header() {
    let t = commit_view_text("abc123", "Ada <ada@x>", "Tue, 2 Jan 2024", "Fix it", "+a\n");
    assert_eq!(
        t,
        "commit abc123\nAuthor: Ada <ada@x>\nDate:   Tue, 2 Jan 2024\n\n    Fix it\n\n+a\n"
    );
}

#[test]
fn commit_view_is_cut_to_the_diff_limit() {
    let patch = "x".repeat(MAX_DIFF_CHARS);
    let t = commit_view_text("h", "a", "d", "m", &patch);
    assert!(t.ends_with("\n\u{2026} [truncated]\n"));
    assert_eq!(t.chars().count(), MAX_DIFF_CHARS + "\n\u{2026} [truncated]\n".chars().count());
}

#[test]
fn configured_author_needs_name_and_email() {
    assert_eq!(
        configured_author("  Ada ", " ada@x "),
        Some(("Ada".to_string(), "ada@x".to_string()))
    );
    assert_eq!(configured_author("Ada", "  "), None);
    assert_eq!(configured_author("", "ada@x"), None);
}

#[test]
fn author_identity_error_points_to_settings() {
    assert_eq!(
        author_identity_error("no name"),
        "Git author identity is not configured. Set name and email in Settings \u{2192} GitHub: no name"
    );
}

#[test]
fn patch_lines_keep_their_markers() {
    let mut out = Vec::new();
    push_patch_line(&mut out, 'F', b"diff --git a/x b/x\n");
    push_patch_line(&mut out, 'H', b"@@ -1 +1 @@\n");
    push_patch_line(&mut out, '-', b"old\n");
    push_patch_line(&mut out, '+', b"new\n");
    push_patch_line(&mut out, ' ', b"same\n");
    assert_eq!(
        String::from_utf8(out).unwrap(),
        "diff --git a/x b/x\n@@ -1 +1 @@\n-old\n+new\n same\n"
    );
}

#[test]
fn branch_names_are_listed_in_order() {
    let names = vec![
        "main".to_string(),
        "feature/b".to_string(),
        "Fix".to_string(),
        "feature/a".to_string(),
        "main".to_string(),
    ];
    assert_eq!(
        sorted_branch_names(names),
        vec!["Fix", "feature/a", "feature/b", "main", "main"]
    );
    assert!(sorted_branch_names(vec![]).is_empty());
}

fn listing() -> RepoListing {
    RepoListing {
        branch: "main".into(),
        branches: vec!["dev".into(), "main".into()],
        ahead: 2,
        behind: 1,
        staged: vec![],
        unstaged: vec![],
        line_changes: std::collections::HashMap::new(),
        log: vec![],
    }
}

#[test]
fn snapshot_shows_open_file_diff() {
    let s = repo_snapshot(
        listing(),
        Some(("src/a.rs".into(), true, "+x\n".into())),
        None,
        None,
    );
    assert!(s.repo);
    assert!(!s.busy);
    assert_eq!(s.branch, "main");
    assert_eq!(s.branches, vec!["dev".to_string(), "main".to_string()]);
    assert_eq!((s.ahead, s.behind), (2, 1));
    assert_eq!(
        s.diff,
        Some(("Staged: src/a.rs".to_string(), "+x\n".to_string()))
    );
    assert_eq!(s.current_diff_path.as_deref(), Some("src/a.rs"));
    assert_eq!(s.current_diff_staged, Some(true));
    assert_eq!(s.last_op, None);
    assert_eq!(s.commit_diff, None);
}

#[test]
fn snapshot_prefers_ready_made_diff() {
    let s = repo_snapshot(
        listing(),
        Some(("src/a.rs".into(), false, "+x\n".into())),
        Some(("commit abc".into(), "text".into())),
        Some("push failed".into()),
    );
    assert_eq!(s.diff, Some(("commit abc".to_string(), "text".to_string())));
    assert_eq!(s.current_diff_path.as_deref(), Some("src/a.rs"));
    assert_eq!(s.current_diff_staged, Some(false));
    assert_eq!(s.error.as_deref(), Some("push failed"));
    let s = repo_snapshot(listing(), None, None, None);
    assert_eq!(s.diff, None);
    assert_eq!(s.current_diff_path, None);
}
