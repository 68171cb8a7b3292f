use std::path::PathBuf;
use trunk_lib::git::backend::{
    ensure_backend_supported, local_path, resolve_backend, spec_for_repo, with_interactive_rebase_editor_env,
    GitBackend, LocalBackend,
};
use trunk_lib::git::command_runner::GitCommandSpec;
use trunk_lib::git::types::{RepoDescriptor, RepoLocator};

fn wsl_descriptor() -> RepoDescriptor {
    let locator = RepoLocator::Wsl { distro: "Ubuntu".to_string(), linux_path: "/home/me/project".to_string() };
    RepoDescriptor {
        id: locator.stable_id(),
        display_name: "project".to_string(),
        display_path: "Ubuntu:/home/me/project".to_string(),
        locator,
    }
}

fn local_repo(path: &str) -> RepoDescriptor {
    RepoDescriptor::local(path.to_string())
}

#[test]
fn backend_resolver_rejects_wsl_descriptors_off_windows() {
    let error = match resolve_backend(wsl_descriptor()) {
        Ok(_) => panic!("expected WSL resolver to reject non-Windows target"),
        Err(error) => error,
    };
    assert_eq!(error.code, "wsl_unsupported_platform");
}

#[test]
fn mod_resolver_rejects_wsl_descriptors_off_windows() {
    let error = match resolve_backend(wsl_descriptor()) {
        Ok(_) => panic!("expected WSL resolver to reject non-Windows target"),
        Err(error) => error,
    };
    assert_eq!(error.code, "wsl_unsupported_platform");
}

#[test]
fn local_command_uses_host_git_and_current_dir() {
    let spec = GitCommandSpec::for_repo(&local_repo("/repo"), &["fetch", "--all"]).unwrap();

    assert_eq!(spec.program, "git");
    assert_eq!(spec.args, vec!["fetch", "--all"]);
    assert_eq!(spec.current_dir.map(PathBuf::from), Some(PathBuf::from("/repo")));
    assert_eq!(spec.env, Vec::<(String, String)>::new());
}

#[test]
fn local_backend_accepts_local_descriptor() {
    assert!(resolve_backend(local_repo("/repo")).is_ok());
    assert!(ensure_backend_supported(&local_repo("/repo")).is_ok());
    assert_eq!(local_path(&local_repo("/srv/x")).unwrap(), "/srv/x");
    assert_eq!(local_path(&wsl_descriptor()).unwrap_err().code, "backend_descriptor_mismatch");
    assert_eq!(ensure_backend_supported(&wsl_descriptor()).unwrap_err().code, "wsl_unsupported_platform");
}

#[test]
fn local_backend_prepares_open_with_native_watcher() {
    let prepared = LocalBackend.prepare_open_repo(local_repo("/work/repo")).unwrap();
    assert_eq!(prepared.execution_path, "/work/repo");
    assert!(prepared.use_native_watcher);
    assert_eq!(prepared.descriptor.id, "local:/work/repo");
    assert_eq!(LocalBackend.poll_token(&local_repo("/work/repo")).unwrap(), None);
}

#[test]
fn wsl_spec_runs_git_through_selected_distro() {
    let spec = spec_for_repo(&wsl_descriptor(), &["status", "--short"]);
    assert_eq!(spec.program, "wsl.exe");
    assert_eq!(
        spec.args,
        vec!["-d", "Ubuntu", "--cd", "/home/me/project", "git", "status", "--short"]
    );
    assert_eq!(spec.current_dir, None);
    let spec = with_interactive_rebase_editor_env(spec);
    assert_eq!(spec.env, vec![("WSLENV".to_string(), "GIT_SEQUENCE_EDITOR:GIT_EDITOR".to_string())]);
}

#[test]
fn rebase_editor_env_is_added_in_order() {
    let spec = GitCommandSpec::for_repo(&local_repo("/repo"), &["rebase", "-i"]).unwrap();
    let spec = spec.with_interactive_rebase_editor_env(&local_repo("/repo"), "/tmp/seq", "/tmp/ed").unwrap();
    assert_eq!(
        spec.env,
        vec![
            ("GIT_SEQUENCE_EDITOR".to_string(), "/tmp/seq".to_string()),
            ("GIT_EDITOR".to_string(), "/tmp/ed".to_string())
        ]
    );
}

#[test]
fn stable_id_drops_trailing_slashes() {
    let a = RepoLocator::Local { path: "/home/u/r/".to_string() };
    let b = RepoLocator::Local { path: "/home/u/r".to_string() };
    assert_eq!(a.stable_id(), "local:/home/u/r");
    assert_eq!(a.stable_id(), b.stable_id());
    let root = RepoLocator::Local { path: "/".to_string() };
    assert_eq!(root.stable_id(), "local:/");
    assert_eq!(wsl_descriptor().id, "wsl:Ubuntu:/home/me/project");
}

#[test]
fn local_descriptor_names_repo_by_last_component() {
    let d = RepoDescriptor::local("/home/me/trunk".to_string());
    assert_eq!(d.display_name, "trunk");
    assert_eq!(d.display_path, "/home/me/trunk");
}

struct BareBackend;

impl GitBackend for BareBackend {}

#[test]
fn backend_without_its_own_methods_reports_them_missing() {
    let repo = local_repo("/tmp/repo");
    let err = BareBackend.prepare_open_repo(repo.clone()).unwrap_err();
    assert_eq!(err.code, "backend_method_not_implemented");
    assert_eq!(err.message, "Git backend method `prepare_open_repo` is not implemented");
    let err = BareBackend.command_spec(&repo, &["status"]).unwrap_err();
    assert_eq!(err.code, "backend_method_not_implemented");
    assert_eq!(err.message, "Git backend method `command_spec` is not implemented");
    let spec = GitCommandSpec {
        program: "git".to_string(),
        args: vec!["rebase".to_string()],
        current_dir: None,
        env: vec![],
    };
    let out = BareBackend.with_interactive_rebase_editor_env(spec, &repo);
    assert_eq!(out.program, "git");
    assert_eq!(out.args, vec!["rebase".to_string()]);
    assert!(out.env.is_empty());
}

#[test]
fn wsl_command_routes_through_selected_distro_and_linux_path() {
    let spec = spec_for_repo(&wsl_descriptor(), &["status", "--short"]);
    assert_eq!(spec.program, "wsl.exe");
    assert_eq!(
        spec.args,
        vec!["-d", "Ubuntu", "--cd", "/home/me/project", "git", "status", "--short"]
    );
    assert_eq!(spec.current_dir, None);
    assert_eq!(spec.env, Vec::<(String, String)>::new());
}
