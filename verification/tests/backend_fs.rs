use trunk_lib::git::backend_fs::{
    delete_repo_file, git_path_args, git_path_result, read_git_file, read_repo_file, repo_identity,
    validate_repo_relative, write_git_file, write_repo_file, BackendTempDir,
};
use trunk_lib::git::review_store::{session_filename, session_path};
use trunk_lib::git::types::RepoLocator;
use trunk_lib::git::command_runner::CommandOutput;
use trunk_lib::git::editor::editor_script_body;
use trunk_lib::git::types::RepoDescriptor;
use trunk_lib::git::wsl::fs::WslTempDir;
use trunk_lib::shell_env::resolve;

#[test]
fn repo_relative_paths_stay_inside() {
    assert!(validate_repo_relative("src/main.rs").is_ok());
    assert!(validate_repo_relative("a/.../b").is_ok());
    let e = validate_repo_relative("/etc/passwd").unwrap_err();
    assert_eq!((e.code.as_str(), e.message.as_str()), ("bad_path", "Repository-relative path must not be absolute: /etc/passwd"));
    let e = validate_repo_relative("a/../../b").unwrap_err();
    assert_eq!(e.message, "Repository-relative path escapes the repository: a/../../b");
}

#[test]
fn git_paths_are_resolved_and_trimmed() {
    assert_eq!(
        git_path_args("rebase-merge/done").unwrap(),
        vec!["rev-parse", "--path-format=absolute", "--git-path", "rebase-merge/done"]
    );
    assert_eq!(git_path_args("../x").unwrap_err().code, "bad_path");
    let out = CommandOutput { success: true, stdout: b"/repo/.git/MERGE_MSG\n".to_vec(), stderr: Vec::new() };
    assert_eq!(git_path_result("MERGE_MSG", &out).unwrap(), "/repo/.git/MERGE_MSG");
    let out = CommandOutput { success: true, stdout: b"  \n".to_vec(), stderr: Vec::new() };
    assert_eq!(git_path_result("MERGE_MSG", &out).unwrap_err().message, "Git path not found: MERGE_MSG");
    let out = CommandOutput { success: false, stdout: Vec::new(), stderr: b" fatal: no repo \n".to_vec() };
    let e = git_path_result("MERGE_MSG", &out).unwrap_err();
    assert_eq!((e.code.as_str(), e.message.as_str()), ("git_path_error", "fatal: no repo"));
}

#[test]
fn repo_identity_is_the_stable_id() {
    let d = RepoDescriptor::local("/home/me/repo/".to_string());
    assert_eq!(repo_identity(&d), "local:/home/me/repo");
}

#[test]
fn temp_dir_paths_join_like_paths() {
    let local = BackendTempDir::Local("/tmp/trunk-1".to_string());
    assert_eq!(local.join_display("todo"), "/tmp/trunk-1/todo");
    assert_eq!(local.join_display("/abs"), "/abs");
    assert_eq!(BackendTempDir::Local("/tmp/".to_string()).join_display("x"), "/tmp/x");
    assert_eq!(local.local_path().as_deref(), Some("/tmp/trunk-1"));
    let wsl = BackendTempDir::Wsl(WslTempDir {
        distro: "Ubuntu".to_string(),
        repo_path: "/repo".to_string(),
        linux_path: "/tmp/t".to_string(),
    });
    assert_eq!(wsl.join_display("a"), "/tmp/t/a");
    assert!(wsl.local_path().is_none());
}

#[test]
fn editor_script_copies_the_message() {
    assert_eq!(editor_script_body("/tmp/msg-1"), "#!/bin/sh\ncp \"/tmp/msg-1\" \"$1\"\n");
}

#[test]
fn system_path_prefers_path_helper() {
    let helper = Some(CommandOutput {
        success: true,
        stdout: b"PATH=\"/usr/bin:/opt/homebrew/bin\"; export PATH;\n".to_vec(),
        stderr: Vec::new(),
    });
    assert_eq!(resolve(&helper, Some("/bin".to_string())), "/usr/bin:/opt/homebrew/bin");
    let broken = Some(CommandOutput { success: false, stdout: Vec::new(), stderr: Vec::new() });
    assert_eq!(resolve(&broken, Some("/bin".to_string())), "/bin");
    assert_eq!(resolve(&None, None), "");
}

#[test]
fn host_file_paths_for_local_repositories() {
    let d = RepoDescriptor::local("/home/me/repo".to_string());
    assert_eq!(read_repo_file(&d, "src/a.rs").unwrap(), "/home/me/repo/src/a.rs");
    assert_eq!(write_repo_file(&d, "b.txt").unwrap(), "/home/me/repo/b.txt");
    assert_eq!(delete_repo_file(&d, "../x").unwrap_err().code, "bad_path");
    assert_eq!(
        read_git_file(&d, "MERGE_MSG").unwrap(),
        vec!["rev-parse", "--path-format=absolute", "--git-path", "MERGE_MSG"]
    );
    assert_eq!(write_git_file(&d, "/abs").unwrap_err().code, "bad_path");
    let w = RepoDescriptor {
        id: "wsl:U:/r".to_string(),
        display_name: "r".to_string(),
        display_path: "/r".to_string(),
        locator: RepoLocator::Wsl { distro: "U".to_string(), linux_path: "/r".to_string() },
    };
    assert_eq!(read_repo_file(&w, "a").unwrap_err().code, "wsl_unsupported_platform");
    assert_eq!(read_git_file(&w, "a").unwrap_err().code, "wsl_unsupported_platform");
}

#[test]
fn session_files_live_under_sessions() {
    let name = session_filename("local:/home/user/repos/trunk");
    assert_eq!(session_path("/data", "local:/home/user/repos/trunk"), format!("/data/sessions/{name}"));
    assert_eq!(session_path("/data/", "local:/x"), format!("/data/sessions/{}", session_filename("local:/x")));
}
