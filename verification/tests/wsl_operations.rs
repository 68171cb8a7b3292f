use trunk_lib::error::TrunkError;
use trunk_lib::git::command_runner::CommandOutput;
use trunk_lib::git::types::{FileStatus, FileStatusType, RepoDescriptor, RepoLocator, WorkingTreeStatus};
use trunk_lib::git::wsl::commit::{
    git_write as commit_write, wsl_amend_commit_inner, wsl_create_commit_inner, wsl_get_head_commit_message_inner,
};
use trunk_lib::git::wsl::fs::{
    create_temp_dir, delete_file_script, delete_repo_file, descriptor_parts, poll_token, read_file_script,
    read_repo_file, shell_single_quote, write_file_script, write_repo_file, wsl_output, wsl_sh_args,
    POLL_TOKEN_SCRIPT,
};
use trunk_lib::git::wsl::operations::{
    check_undo_available, checkout_after_create, create_branch_args, delete_branch_check, discard_file_command,
    fast_forward_result, merge_sides, rebase_range, rebase_todo_items, redo_commit_args, stage_spec,
    undo_commit_step, unstage_all_args, UndoStep,
};
use trunk_lib::git::wsl::staging::{
    git_apply, git_output_text, git_write, hunk_apply_plan, lines_apply_plan, single_wsl_diff, wsl_stage_files,
    wsl_unstage_files, wsl_unstaged_diff_text, DiffTextStep,
};
use trunk_lib::git::wsl::stash::{run_git, stash_ref, wsl_has_conflicts, wsl_stash_apply, wsl_stash_pop, wsl_stash_save};

fn ok(stdout: &str) -> CommandOutput {
    CommandOutput { success: true, stdout: stdout.as_bytes().to_vec(), stderr: Vec::new() }
}

fn failed(stderr: &str) -> CommandOutput {
    CommandOutput { success: false, stdout: Vec::new(), stderr: stderr.as_bytes().to_vec() }
}

fn strings(v: &[&str]) -> Vec<String> {
    v.iter().map(|s| s.to_string()).collect()
}

fn wsl_repo() -> RepoDescriptor {
    RepoDescriptor {
        id: "wsl:Ubuntu:/home/me/repo".to_string(),
        display_name: "repo".to_string(),
        display_path: "/home/me/repo".to_string(),
        locator: RepoLocator::Wsl { distro: "Ubuntu".to_string(), linux_path: "/home/me/repo".to_string() },
    }
}

#[test]
fn write_outcomes_report_trimmed_stderr_or_fallback() {
    assert!(git_write(&ok(""), "stage_error").is_ok());
    let e = git_write(&failed("  fatal: bad path \n"), "stage_error").unwrap_err();
    assert_eq!((e.code.as_str(), e.message.as_str()), ("stage_error", "fatal: bad path"));
    let e = git_write(&failed("   "), "stage_error").unwrap_err();
    assert_eq!(e.message, "Git write operation failed");
    let e = git_apply(&failed(""), "hunk_apply_failed").unwrap_err();
    assert_eq!((e.code.as_str(), e.message.as_str()), ("hunk_apply_failed", "Git patch apply failed"));
    assert_eq!(git_output_text(&ok("a b\n"), "x").unwrap(), "a b\n");
    assert_eq!(git_output_text(&failed(""), "x").unwrap_err().message, "Git command failed");
    assert_eq!(commit_write(&failed(""), "commit_error").unwrap_err().message, "Git commit operation failed");
}

#[test]
fn stage_and_unstage_commands() {
    assert!(wsl_stage_files(&Vec::new()).is_none());
    assert_eq!(wsl_stage_files(&strings(&["a.txt", "b.txt"])).unwrap(), strings(&["add", "--", "a.txt", "b.txt"]));
    assert_eq!(
        wsl_unstage_files(&strings(&["a.txt"]), true).unwrap(),
        strings(&["restore", "--staged", "--", "a.txt"])
    );
    assert_eq!(
        wsl_unstage_files(&strings(&["a.txt"]), false).unwrap(),
        strings(&["rm", "--cached", "-r", "--ignore-unmatch", "--", "a.txt"])
    );
    assert_eq!(unstage_all_args(true), strings(&["restore", "--staged", "."]));
    assert_eq!(unstage_all_args(false), strings(&["rm", "--cached", "-r", "--ignore-unmatch", "."]));
}

#[test]
fn unstaged_diff_text_falls_back_to_untracked_diff() {
    let mut outputs: Vec<CommandOutput> = Vec::new();
    match wsl_unstaged_diff_text("new.txt", &outputs) {
        DiffTextStep::Run(a) => assert_eq!(a, strings(&["diff", "--no-color", "--find-renames", "--", "new.txt"])),
        DiffTextStep::Done(_) => panic!("expected a command"),
    }
    outputs.push(ok(""));
    match wsl_unstaged_diff_text("new.txt", &outputs) {
        DiffTextStep::Run(a) => assert_eq!(a[0], "ls-files"),
        DiffTextStep::Done(_) => panic!("expected a command"),
    }
    outputs.push(ok("new.txt\n"));
    match wsl_unstaged_diff_text("new.txt", &outputs) {
        DiffTextStep::Run(a) => assert_eq!(a, strings(&["diff", "--no-color", "--no-index", "/dev/null", "new.txt"])),
        DiffTextStep::Done(_) => panic!("expected a command"),
    }
    outputs.push(CommandOutput { success: false, stdout: b"+hello\n".to_vec(), stderr: Vec::new() });
    match wsl_unstaged_diff_text("new.txt", &outputs) {
        DiffTextStep::Done(Ok(t)) => assert_eq!(t, "+hello\n"),
        _ => panic!("expected the diff text"),
    }
}

#[test]
fn unstaged_diff_text_stops_when_path_is_not_untracked() {
    let outputs = vec![ok(""), ok("  \n")];
    match wsl_unstaged_diff_text("gone.txt", &outputs) {
        DiffTextStep::Done(Ok(t)) => assert!(t.is_empty()),
        _ => panic!("expected empty text"),
    }
    let outputs = vec![ok(""), failed("boom")];
    match wsl_unstaged_diff_text("gone.txt", &outputs) {
        DiffTextStep::Done(Err(e)) => assert_eq!((e.code.as_str(), e.message.as_str()), ("git_diff_error", "boom")),
        _ => panic!("expected an error"),
    }
}

const RAW: &str = "diff --git a/file.txt b/file.txt\n--- a/file.txt\n+++ b/file.txt\n@@ -1,2 +1,2 @@\n-old\n+new\n same\n";

#[test]
fn hunk_and_line_plans() {
    let p = hunk_apply_plan(RAW, "file.txt", 0, true, true).unwrap();
    assert_eq!(p.args, strings(&["apply", "--cached", "--reverse", "--"]));
    assert_eq!(p.code, "hunk_apply_failed");
    assert!(p.patch.contains("-old\n+new\n"));
    let e = hunk_apply_plan(RAW, "file.txt", 3, false, false).unwrap_err();
    assert_eq!(e.code, "stale_hunk_index");

    let p = lines_apply_plan(RAW, "file.txt", 0, &vec![1], false, true, false).unwrap();
    assert_eq!(p.args, strings(&["apply", "--cached", "--"]));
    assert_eq!(p.code, "line_apply_failed");
    let e = lines_apply_plan("", "file.txt", 0, &vec![1], true, true, true).unwrap_err();
    assert_eq!((e.code.as_str(), e.message.as_str()), ("file_not_found", "No staged changes for: file.txt"));
}

#[test]
fn single_wsl_diff_checks_hunk_and_path() {
    let diffs = trunk_lib::git::read_model::parse_unified_diff(RAW);
    let e = single_wsl_diff(diffs, "file.txt", 5, "missing").unwrap_err();
    assert_eq!(e.message, "Hunk index 5 out of range (file has 1 hunks)");
    let diffs = trunk_lib::git::read_model::parse_unified_diff(RAW);
    let e = single_wsl_diff(diffs, "other.txt", 0, "missing").unwrap_err();
    assert_eq!(e.message, "No changes for: other.txt");
    let (f, h) = single_wsl_diff(trunk_lib::git::read_model::parse_unified_diff(RAW), "file.txt", 0, "m").unwrap();
    assert_eq!(f.path, "file.txt");
    assert_eq!(h.lines.len(), 3);
    let e = single_wsl_diff(Vec::new(), "file.txt", 0, "nothing here").unwrap_err();
    assert_eq!((e.code.as_str(), e.message.as_str()), ("file_not_found", "nothing here"));
}

#[test]
fn commit_commands_and_head_message() {
    assert_eq!(wsl_create_commit_inner("Subject", Some("Body")), strings(&["commit", "-m", "Subject", "-m", "Body"]));
    assert_eq!(wsl_create_commit_inner("Subject", Some("  ")), strings(&["commit", "-m", "Subject"]));
    assert_eq!(wsl_amend_commit_inner("S", None), strings(&["commit", "--amend", "-m", "S"]));
    let m = wsl_get_head_commit_message_inner(&ok("Fix bug\0\n  details here \n\n")).unwrap();
    assert_eq!(m.subject, "Fix bug");
    assert_eq!(m.body.as_deref(), Some("details here"));
    let m = wsl_get_head_commit_message_inner(&ok("Only subject\0\n")).unwrap();
    assert_eq!(m.subject, "Only subject");
    assert!(m.body.is_none());
    let e = wsl_get_head_commit_message_inner(&failed("")).unwrap_err();
    assert_eq!(e.message, "Could not read HEAD commit message");
}

#[test]
fn stash_outcomes() {
    let e = wsl_stash_save(&ok("  \n"), "msg").unwrap_err();
    assert_eq!(e.code, "nothing_to_stash");
    assert_eq!(wsl_stash_save(&ok(" M a.txt\n"), "wip").unwrap(), strings(&["stash", "push", "-m", "wip"]));
    assert_eq!(wsl_stash_save(&ok(" M a.txt\n"), " ").unwrap(), strings(&["stash", "push"]));
    assert_eq!(stash_ref(3), "stash@{3}");
    assert_eq!(wsl_has_conflicts(&ok("100644 abc 1\ta.txt\n")).unwrap(), true);
    assert_eq!(wsl_has_conflicts(&ok("")).unwrap(), false);
    let e = run_git(&CommandOutput { success: false, stdout: b" out \n".to_vec(), stderr: Vec::new() }).unwrap_err();
    assert_eq!((e.code.as_str(), e.message.as_str()), ("git_error", "out"));

    let conflicts: Result<CommandOutput, TrunkError> = Ok(ok("100644 abc 1\ta.txt\n"));
    let e = wsl_stash_apply(&failed("conflict"), &conflicts).unwrap_err();
    assert_eq!(e.code, "conflict_state");
    let e = wsl_stash_pop(&ok(""), &conflicts).unwrap_err();
    assert!(e.message.ends_with("Note: stash was NOT removed."));
    let clean: Result<CommandOutput, TrunkError> = Ok(ok(""));
    assert!(wsl_stash_apply(&ok(""), &clean).is_ok());
    let e = wsl_stash_apply(&failed("no such stash"), &clean).unwrap_err();
    assert_eq!((e.code.as_str(), e.message.as_str()), ("git_error", "no such stash"));
}

#[test]
fn undo_commit_steps_through_three_commands() {
    let mut outputs: Vec<CommandOutput> = Vec::new();
    match undo_commit_step(&outputs) {
        UndoStep::Run(a) => assert_eq!(a, strings(&["rev-list", "--parents", "-n", "1", "HEAD"])),
        UndoStep::Done(_) => panic!("expected a command"),
    }
    outputs.push(ok("c1 p1\n"));
    match undo_commit_step(&outputs) {
        UndoStep::Run(a) => assert_eq!(a, strings(&["log", "-1", "--format=%s%x00%b"])),
        UndoStep::Done(_) => panic!("expected a command"),
    }
    outputs.push(ok("Add thing\0Longer body\n\n"));
    match undo_commit_step(&outputs) {
        UndoStep::Run(a) => assert_eq!(a, strings(&["reset", "--soft", "HEAD~1"])),
        UndoStep::Done(_) => panic!("expected a command"),
    }
    outputs.push(ok(""));
    match undo_commit_step(&outputs) {
        UndoStep::Done(Ok(u)) => {
            assert_eq!(u.subject, "Add thing");
            assert_eq!(u.body.as_deref(), Some("Longer body"));
        }
        _ => panic!("expected the undone message"),
    }
}

#[test]
fn undo_commit_refuses_root_and_merge_commits() {
    match undo_commit_step(&vec![ok("c1\n")]) {
        UndoStep::Done(Err(e)) => assert_eq!((e.code.as_str(), e.message.as_str()), ("nothing_to_undo", "Cannot undo the initial commit")),
        _ => panic!("expected a refusal"),
    }
    match undo_commit_step(&vec![ok("c1 p1 p2\n")]) {
        UndoStep::Done(Err(e)) => assert_eq!((e.code.as_str(), e.message.as_str()), ("merge_commit", "Cannot undo a merge commit")),
        _ => panic!("expected a refusal"),
    }
    match undo_commit_step(&vec![failed("fatal: bad HEAD\n")]) {
        UndoStep::Done(Err(e)) => assert_eq!((e.code.as_str(), e.message.as_str()), ("undo_error", "fatal: bad HEAD\n")),
        _ => panic!("expected an error"),
    }
    assert!(check_undo_available(&ok("c1 p1\n")));
    assert!(!check_undo_available(&ok("c1\n")));
    assert!(!check_undo_available(&failed("")));
}

#[test]
fn redo_merge_and_rebase() {
    assert_eq!(redo_commit_args("S", Some("B")), strings(&["commit", "-m", "S\n\nB"]));
    assert_eq!(redo_commit_args("S", Some(" ")), strings(&["commit", "-m", "S"]));
    assert_eq!(stage_spec("2", "a.txt"), ":2:a.txt");
    let sides = merge_sides(&failed(""), &ok("ours\n"), &ok("theirs\n"), "a.txt").unwrap();
    assert_eq!((sides.base.as_str(), sides.ours.as_str(), sides.theirs.as_str()), ("", "ours\n", "theirs\n"));
    let e = merge_sides(&ok("b"), &failed(""), &failed(""), "a.txt").unwrap_err();
    assert_eq!((e.code.as_str(), e.message.as_str()), ("not_conflicted", "File not in conflict: a.txt"));
    assert_eq!(rebase_range("abc", false, &None), "abc..HEAD");
    assert_eq!(rebase_range("abc", true, &Some(ok(" p123 \n"))), "p123..HEAD");
    assert_eq!(rebase_range("abc", true, &Some(failed(""))), "HEAD");
    let items = rebase_todo_items(&ok("0123456789abcdef\0Fix it\0Ann\01700000000\nfedcba9876\0Two\0Bob\0nope\n")).unwrap();
    assert_eq!(items.len(), 2);
    assert_eq!(items[0].short_oid, "0123456");
    assert_eq!(items[0].author_timestamp, 1700000000);
    assert_eq!(items[1].summary, "Two");
    assert_eq!(items[1].author_timestamp, 0);
    assert_eq!(rebase_todo_items(&failed("bad range")).unwrap_err().code, "rebase_error");
}

#[test]
fn branch_decisions() {
    assert!(fast_forward_result(&ok("")).is_ok());
    let e = fast_forward_result(&failed(" fatal: Not possible to fast-forward\n")).unwrap_err();
    assert_eq!((e.code.as_str(), e.message.as_str()), ("not_fast_forward", "fatal: Not possible to fast-forward"));
    assert_eq!(create_branch_args("feat", Some("abc")), strings(&["branch", "feat", "abc"]));
    assert_eq!(create_branch_args("feat", None), strings(&["branch", "feat"]));
    assert_eq!(checkout_after_create(&failed("")).unwrap_err().code, "dirty_workdir");
    assert_eq!(delete_branch_check("main", "main").unwrap_err().code, "cannot_delete_head");
    assert!(delete_branch_check("main", "feat").is_ok());
}

#[test]
fn discard_file_picks_command_by_status() {
    let status = WorkingTreeStatus {
        unstaged: vec![
            FileStatus { path: "new.txt".to_string(), status: FileStatusType::New, is_binary: false },
            FileStatus { path: "old.txt".to_string(), status: FileStatusType::Modified, is_binary: false },
        ],
        staged: Vec::new(),
        conflicted: Vec::new(),
    };
    let (a, code) = discard_file_command(&status, "new.txt").unwrap();
    assert_eq!((a, code.as_str()), (strings(&["clean", "-f", "--", "new.txt"]), "io_error"));
    let (a, code) = discard_file_command(&status, "old.txt").unwrap();
    assert_eq!((a, code.as_str()), (strings(&["checkout", "--", "old.txt"]), "discard_error"));
    let e = discard_file_command(&status, "zzz").unwrap_err();
    assert_eq!(e.message, "File not in working tree changes: zzz");
}

#[test]
fn wsl_fs_scripts_quote_paths() {
    assert_eq!(shell_single_quote("a b"), "'a b'");
    assert_eq!(shell_single_quote("it's"), "'it'\\''s'");
    assert_eq!(read_file_script("x.txt"), "cat -- 'x.txt'");
    assert_eq!(write_file_script("d/x.txt"), "mkdir -p -- \"$(dirname -- 'd/x.txt')\" && cat > 'd/x.txt'");
    assert_eq!(delete_file_script("x.txt"), "rm -f -- 'x.txt'");
    assert_eq!(
        wsl_sh_args("Ubuntu", "/repo", "cat -- 'x'"),
        strings(&["-d", "Ubuntu", "--cd", "/repo", "sh", "-lc", "cat -- 'x'"])
    );
    assert_eq!(wsl_output(&ok("data")).unwrap(), b"data".to_vec());
    assert_eq!(wsl_output(&failed("")).unwrap_err().message, "WSL filesystem command failed");
    let (distro, path) = descriptor_parts(&wsl_repo()).unwrap();
    assert_eq!((distro.as_str(), path.as_str()), ("Ubuntu", "/home/me/repo"));
    let local = RepoDescriptor::local("/tmp/r".to_string());
    assert_eq!(descriptor_parts(&local).unwrap_err().code, "backend_descriptor_mismatch");
}

#[test]
fn wsl_temp_dir_scripts() {
    let (dir, cmd) = create_temp_dir(&wsl_repo(), "trunk-x").unwrap();
    assert_eq!(cmd.args, strings(&["-d", "Ubuntu", "--cd", "/home/me/repo", "sh", "-lc", "mkdir -p -- '/tmp/trunk-x'"]));
    assert_eq!(dir.join_display("todo"), "/tmp/trunk-x/todo");
    let w = dir.write_file("editor.sh", "#!/bin/sh\n", true);
    assert_eq!(
        w.args[6],
        "TARGET='/tmp/trunk-x/editor.sh'; mkdir -p -- \"$(dirname -- \"$TARGET\")\" && cat > \"$TARGET\" && chmod 755 -- $TARGET"
    );
    assert_eq!(w.stdin.as_deref(), Some("#!/bin/sh\n"));
    assert_eq!(dir.create_dir_all("sub").args[6], "mkdir -p -- '/tmp/trunk-x/sub'");
    assert_eq!(dir.cleanup().args[6], "rm -rf -- '/tmp/trunk-x'");
    let r = read_repo_file(&wsl_repo(), "a b.txt").unwrap();
    assert_eq!(r.args[6], "cat -- 'a b.txt'");
    assert!(r.stdin.is_none());
    let w = write_repo_file(&wsl_repo(), "x.txt", "data").unwrap();
    assert_eq!(w.stdin.as_deref(), Some("data"));
    assert_eq!(delete_repo_file(&wsl_repo(), "x.txt").unwrap().args[6], "rm -f -- 'x.txt'");
    assert_eq!(poll_token(&wsl_repo()).unwrap().args[6], POLL_TOKEN_SCRIPT);
    assert!(read_repo_file(&RepoDescriptor::local("/r".to_string()), "x").is_err());
}
