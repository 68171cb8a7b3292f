use trunk_lib::git::command_runner::CommandOutput;
use trunk_lib::git::wsl::read_model::git_read_output;
use trunk_lib::git::types::{DiffRequestOptions, DiffStatus, OperationType, RefType};
use trunk_lib::git::wsl::read_model::{
    diff_args, wsl_commit_detail, wsl_commit_graph, wsl_diff_unstaged, wsl_list_commit_files, wsl_operation_state,
    wsl_refs, wsl_refs_by_oid, wsl_upstream_count_args, OperationFacts, RebaseFiles, UnstagedStep,
};

fn no_rebase() -> RebaseFiles {
    RebaseFiles { head_name: None, msgnum: None, onto: None, end: None, message: None }
}

fn facts() -> OperationFacts {
    OperationFacts {
        unmerged: String::new(),
        current_branch: Some("main\n".to_string()),
        rebase_merge: no_rebase(),
        rebase_apply: no_rebase(),
        cherry_pick_head: None,
        revert_head: None,
        merge_head: None,
        merge_msg: None,
        branch_heads: None,
    }
}

#[test]
fn wsl_refs_by_oid_labels_branches_tags_and_stashes() {
    let refs = "aaa\0refs/heads/main\naaa\0refs/remotes/origin/HEAD\nbbb\0refs/tags/v1\nccc\0refs/notes/x\n";
    let stash = "ddd\0stash@{0}\0WIP on main\n";
    let map = wsl_refs_by_oid("refs/heads/main\n", refs, stash);
    let a = map.get("aaa").unwrap();
    assert_eq!(a.len(), 1);
    assert_eq!(a[0].short_name, "main");
    assert!(a[0].is_head);
    let b = map.get("bbb").unwrap();
    assert!(matches!(b[0].ref_type, RefType::Tag));
    assert!(map.get("ccc").is_none());
    let d = map.get("ddd").unwrap();
    assert!(matches!(d[0].ref_type, RefType::Stash));
    assert_eq!(d[0].short_name, "stash@{0}");
    assert_eq!(d[0].name, "WIP on main");
}

#[test]
fn wsl_commit_graph_reads_log_records() {
    let map = wsl_refs_by_oid("refs/heads/main", "bbbbbbbbbb\0refs/heads/main\n", "");
    let log = "bbbbbbbbbb\0aaaaaaaaaa\0second\0body\n\0Ann\0ann@x\01700000000\x1e\naaaaaaaaaa\0\0first\0\0Ann\0ann@x\0 12 \x1e\n";
    let g = wsl_commit_graph(&map, &Some("bbbbbbbbbb".to_string()), log);
    assert_eq!(g.commits.len(), 2);
    assert_eq!(g.commits[0].summary, "second");
    assert_eq!(g.commits[0].body.as_deref(), Some("body"));
    assert_eq!(g.commits[0].author_timestamp, 1700000000);
    assert_eq!(g.commits[1].author_timestamp, 12);
    assert_eq!(g.commits[0].short_oid, "bbbbbbb");
    assert!(g.commits[0].is_head);
    assert!(g.commits[0].is_branch_tip);
    assert!(!g.commits[1].is_branch_tip);
    assert_eq!(g.commits[1].body, None);
    assert_eq!(g.commits[0].column, 0);
    assert_eq!(g.commits[1].column, 0);
    assert_eq!(g.max_columns, 1);
}

#[test]
fn wsl_lists_commit_files_with_status() {
    let out = "M\tsrc/a.rs\nA\tnew.txt\nR100\told.txt\trenamed.txt\nX\tweird\n\n";
    let files = wsl_list_commit_files(out);
    assert_eq!(files.len(), 4);
    assert!(matches!(files[0].status, DiffStatus::Modified));
    assert!(matches!(files[1].status, DiffStatus::Added));
    assert_eq!(files[2].path, "renamed.txt");
    assert!(matches!(files[2].status, DiffStatus::Renamed));
    assert!(matches!(files[3].status, DiffStatus::Unknown));
}

#[test]
fn wsl_commit_detail_reads_show_output() {
    let out = "abcdef0123\0subject\0\0Ann\0a@x\0100\0Cid\0c@x\0200\0p1 p2\n\n";
    let d = wsl_commit_detail(out);
    assert_eq!(d.oid, "abcdef0123");
    assert_eq!(d.short_oid, "abcdef0");
    assert_eq!(d.summary, "subject");
    assert_eq!(d.body, None);
    assert_eq!(d.author_timestamp, 100);
    assert_eq!(d.committer_name, "Cid");
    assert_eq!(d.committer_timestamp, 200);
    assert_eq!(d.parent_oids, vec!["p1".to_string(), "p2".to_string()]);
}

#[test]
fn wsl_refs_reads_branches_and_upstream_counts() {
    let branches = "main\0origin/main\01700\nfeature\0\0900\n";
    let args = wsl_upstream_count_args(branches);
    assert_eq!(args, vec![vec!["rev-list".to_string(), "--left-right".to_string(), "--count".to_string(), "main...origin/main".to_string()]]);
    let r = wsl_refs("main\n", branches, &vec!["2\t3\n".to_string()], "origin/HEAD\0\norigin/main\01600\n", "v1\n", "stash@{0}\0ddd\0ppp qqq\0WIP\n");
    assert_eq!(r.local.len(), 2);
    assert!(r.local[0].is_head);
    assert_eq!(r.local[0].upstream.as_deref(), Some("origin/main"));
    assert_eq!((r.local[0].ahead, r.local[0].behind), (2, 3));
    assert_eq!(r.local[1].upstream, None);
    assert_eq!(r.local[1].last_commit_timestamp, 900);
    assert_eq!(r.remote.len(), 1);
    assert_eq!(r.remote[0].name, "origin/main");
    assert_eq!(r.tags[0].name, "refs/tags/v1");
    assert_eq!(r.stashes[0].parent_oid.as_deref(), Some("ppp"));
    assert_eq!(r.stashes[0].name, "WIP");
}

#[test]
fn wsl_operation_state_decides_each_operation() {
    let idle = wsl_operation_state(&facts());
    assert!(matches!(idle.op_type, OperationType::Idle));
    assert_eq!(idle.target_branch.as_deref(), Some("main"));

    let mut f = facts();
    f.merge_head = Some("abc\n".to_string());
    f.merge_msg = Some("Merge branch 'feature'\n".to_string());
    let m = wsl_operation_state(&f);
    assert!(matches!(m.op_type, OperationType::Merge));
    assert_eq!(m.source_branch.as_deref(), Some("feature"));

    let mut f = facts();
    f.cherry_pick_head = Some("abc".to_string());
    assert!(matches!(wsl_operation_state(&f).op_type, OperationType::CherryPick));

    let mut f = facts();
    f.rebase_merge.head_name = Some("refs/heads/topic\n".to_string());
    f.rebase_merge.msgnum = Some("2".to_string());
    f.rebase_merge.end = Some("5".to_string());
    f.rebase_merge.onto = Some("1234567890".to_string());
    f.branch_heads = Some("main\x001234567890\n".to_string());
    let r = wsl_operation_state(&f);
    assert!(matches!(r.op_type, OperationType::Rebase));
    assert_eq!(r.source_branch.as_deref(), Some("topic"));
    assert_eq!(r.target_branch.as_deref(), Some("main"));
    assert_eq!(r.progress.as_deref(), Some("2/5"));
}

#[test]
fn wsl_diff_unstaged_steps_through_untracked_files() {
    let o = DiffRequestOptions { context_lines: 3, ignore_whitespace: true, show_full_file: false };
    match wsl_diff_unstaged("f.txt", &o, &vec![]) {
        UnstagedStep::Run(a) => assert_eq!(a, diff_args(&["diff"], Some("f.txt"), &o)),
        _ => panic!("first step runs git diff"),
    }
    assert_eq!(
        diff_args(&["diff"], Some("f.txt"), &o),
        vec!["diff", "--no-color", "--find-renames", "--unified=3", "--ignore-all-space", "--", "f.txt"]
    );
    match wsl_diff_unstaged("f.txt", &o, &vec!["".to_string()]) {
        UnstagedStep::Run(a) => assert_eq!(a[0], "ls-files"),
        _ => panic!("second step lists untracked files"),
    }
    match wsl_diff_unstaged("f.txt", &o, &vec!["".to_string(), "\n".to_string()]) {
        UnstagedStep::Done(d) => assert!(d.is_empty()),
        _ => panic!("nothing to show"),
    }
    let diff = "diff --git a/f.txt b/f.txt\nnew file mode 100644\n--- /dev/null\n+++ b/f.txt\n@@ -0,0 +1 @@\n+x\n";
    match wsl_diff_unstaged("f.txt", &o, &vec!["".to_string(), "f.txt\n".to_string(), diff.to_string()]) {
        UnstagedStep::Done(d) => {
            assert_eq!(d.len(), 1);
            assert!(matches!(d[0].status, DiffStatus::Untracked));
        },
        _ => panic!("untracked diff"),
    }
}

#[test]
fn read_commands_report_trimmed_errors() {
    let ok = CommandOutput { success: true, stdout: b"x\n".to_vec(), stderr: Vec::new() };
    assert_eq!(git_read_output(&ok).unwrap(), "x\n");
    let bad = CommandOutput { success: false, stdout: Vec::new(), stderr: b" fatal: nope \n".to_vec() };
    let e = git_read_output(&bad).unwrap_err();
    assert_eq!((e.code.as_str(), e.message.as_str()), ("git_read_error", "fatal: nope"));
}
