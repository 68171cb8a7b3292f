//! Backends: how the application reaches a repository. A repository on the
//! host is served by the local backend; a repository inside a WSL
//! distribution needs Windows, and is refused elsewhere.
use vstd::prelude::*;

use crate::error::TrunkError;
use crate::git::command_runner::{GitCommandSpec, SpecView, owned_args, str_views};
use crate::git::types::{RepoDescriptor, RepoLocator};

verus! {

/// A repository ready to open: its descriptor, the path the application
/// works in, and whether file-system events can be watched natively.
#[derive(Debug, Clone)]
pub struct PreparedOpenRepo {
    pub descriptor: RepoDescriptor,
    pub execution_path: String,
    pub use_native_watcher: bool,
}

/// The error for a backend operation that is not available.
pub fn backend_method_not_implemented<T>(method: &str) -> (r: Result<T, TrunkError>)
    ensures
        r matches Err(e) && e.code@ == "backend_method_not_implemented"@ && e.message@
            == "Git backend method `"@ + method@ + "` is not implemented"@,
{
    let mut m = crate::text::chars_of("Git backend method `");
    crate::text::push_str(&mut m, method);
    crate::text::push_str(&mut m, "` is not implemented");
    Err(TrunkError::from_chars("backend_method_not_implemented", &m))
}

/// The error for a WSL repository on a host other than Windows.
pub fn wsl_unsupported_platform() -> (e: TrunkError)
    ensures
        e.code@ == "wsl_unsupported_platform"@,
        e.message@ == "WSL repositories can only be used on Windows."@,
{
    TrunkError::new("wsl_unsupported_platform", "WSL repositories can only be used on Windows.")
}

/// What a backend does for the repositories it serves.
pub trait GitBackend {
    /// The repository ready to open; a backend that does not provide it
    /// reports `backend_method_not_implemented`.
    fn prepare_open_repo(&self, descriptor: RepoDescriptor) -> (r: Result<PreparedOpenRepo, TrunkError>)
        default_ensures
            r matches Err(e) && e.code@ == "backend_method_not_implemented"@ && e.message@
                == "Git backend method `"@ + "prepare_open_repo"@ + "` is not implemented"@,
    {
        backend_method_not_implemented("prepare_open_repo")
    }

    /// The command line that runs `git <git_args>` for the repository; a
    /// backend that does not provide it reports
    /// `backend_method_not_implemented`.
    fn command_spec(&self, repo: &RepoDescriptor, git_args: &[&str]) -> (r: Result<GitCommandSpec, TrunkError>)
        default_ensures
            r matches Err(e) && e.code@ == "backend_method_not_implemented"@ && e.message@
                == "Git backend method `"@ + "command_spec"@ + "` is not implemented"@,
    {
        backend_method_not_implemented("command_spec")
    }

    /// The command adjusted so that the editors set for an interactive
    /// rebase reach git; a backend that needs nothing more leaves it as it is.
    fn with_interactive_rebase_editor_env(&self, spec: GitCommandSpec, repo: &RepoDescriptor) -> (r: GitCommandSpec)
        default_ensures
            r == spec,
    {
        spec
    }
}

/// The backend for repositories on the host.
#[derive(Debug, Default, Clone, Copy)]
pub struct LocalBackend;

/// The path of a repository on the host; an error for any other descriptor.
pub fn local_path(repo: &RepoDescriptor) -> (r: Result<&str, TrunkError>)
    ensures
        match repo.locator {
            RepoLocator::Local { path } => r matches Ok(p) && p@ == path@,
            RepoLocator::Wsl { .. } => r matches Err(e) && e.code@ == "backend_descriptor_mismatch"@,
        },
{
    match &repo.locator {
        RepoLocator::Local { path } => Ok(path.as_str()),
        _ => Err(TrunkError::new("backend_descriptor_mismatch", "Local backend received a non-local descriptor")),
    }
}

impl GitBackend for LocalBackend {
    fn prepare_open_repo(&self, descriptor: RepoDescriptor) -> (r: Result<PreparedOpenRepo, TrunkError>)
        ensures
            match descriptor.locator {
                RepoLocator::Local { path } => r matches Ok(p) && p.descriptor == descriptor
                    && p.execution_path@ == path@ && p.use_native_watcher,
                RepoLocator::Wsl { .. } => r matches Err(e) && e.code@ == "backend_descriptor_mismatch"@,
            },
    {
        let execution_path = String::from_str(local_path(&descriptor)?);
        Ok(PreparedOpenRepo { descriptor, execution_path, use_native_watcher: true })
    }

    fn command_spec(&self, repo: &RepoDescriptor, git_args: &[&str]) -> (r: Result<GitCommandSpec, TrunkError>)
        ensures
            match repo.locator {
                RepoLocator::Local { path } => r matches Ok(s) && s@ == (SpecView {
                    program: "git"@,
                    args: str_views(git_args@),
                    current_dir: Some(path@),
                    env: Seq::empty(),
                }),
                RepoLocator::Wsl { .. } => r matches Err(e) && e.code@ == "backend_descriptor_mismatch"@,
            },
    {
        let dir = String::from_str(local_path(repo)?);
        let spec = GitCommandSpec {
            program: String::from_str("git"),
            args: owned_args(git_args),
            current_dir: Some(dir),
            env: Vec::new(),
        };
        assert(crate::git::command_runner::pair_views(spec.env@) =~= Seq::empty());
        Ok(spec)
    }

    fn with_interactive_rebase_editor_env(&self, spec: GitCommandSpec, repo: &RepoDescriptor) -> (r: GitCommandSpec)
        ensures
            r == spec,
    {
        spec
    }
}

impl LocalBackend {
    /// The change token to poll: none, the host's file-system events are
    /// watched instead.
    pub fn poll_token(&self, repo: &RepoDescriptor) -> (r: Result<Option<String>, TrunkError>)
        ensures
            match repo.locator {
                RepoLocator::Local { .. } => r matches Ok(None),
                RepoLocator::Wsl { .. } => r matches Err(e) && e.code@ == "backend_descriptor_mismatch"@,
            },
    {
        local_path(repo)?;
        Ok(None)
    }
}

/// The backend that serves a repository: the local backend for one on the
/// host; a WSL repository cannot be served on this platform.
pub fn resolve_backend(descriptor: RepoDescriptor) -> (r: Result<LocalBackend, TrunkError>)
    ensures
        match descriptor.locator {
            RepoLocator::Local { .. } => r is Ok,
            RepoLocator::Wsl { .. } => r matches Err(e) && e.code@ == "wsl_unsupported_platform"@ && e.message@
                == "WSL repositories can only be used on Windows."@,
        },
{
    match descriptor.locator {
        RepoLocator::Local { .. } => Ok(LocalBackend),
        RepoLocator::Wsl { .. } => Err(wsl_unsupported_platform()),
    }
}

/// `Ok` exactly when some backend serves the repository here.
pub fn ensure_backend_supported(descriptor: &RepoDescriptor) -> (r: Result<(), TrunkError>)
    ensures
        match descriptor.locator {
            RepoLocator::Local { .. } => r is Ok,
            RepoLocator::Wsl { .. } => r matches Err(e) && e.code@ == "wsl_unsupported_platform"@ && e.message@
                == "WSL repositories can only be used on Windows."@,
        },
{
    match resolve_backend(descriptor.copy()) {
        Ok(_) => Ok(()),
        Err(e) => Err(e),
    }
}

/// The backend for a repository inside a WSL distribution.
#[derive(Debug, Clone)]
pub struct WslBackend {
    repo: RepoDescriptor,
}

impl WslBackend {
    pub fn new(repo: RepoDescriptor) -> (b: WslBackend)
        ensures
            b.descriptor() == repo,
    {
        WslBackend { repo }
    }

    pub closed spec fn descriptor(&self) -> RepoDescriptor {
        self.repo
    }
}

/// `wsl.exe -d <distro> --cd <linux_path> git <git_args>`.
pub open spec fn wsl_args(distro: Seq<char>, linux_path: Seq<char>, git_args: Seq<Seq<char>>) -> Seq<Seq<char>> {
    seq!["-d"@, distro, "--cd"@, linux_path, "git"@] + git_args
}

/// The command that runs git inside the repository's distribution, in its
/// directory.
pub fn spec_for_repo(repo: &RepoDescriptor, git_args: &[&str]) -> (r: GitCommandSpec)
    requires
        repo.locator is Wsl,
    ensures
        match repo.locator {
            RepoLocator::Wsl { distro, linux_path } => r@ == (SpecView {
                program: "wsl.exe"@,
                args: wsl_args(distro@, linux_path@, str_views(git_args@)),
                current_dir: None,
                env: Seq::empty(),
            }),
            _ => false,
        },
{
    match &repo.locator {
        RepoLocator::Wsl { distro, linux_path } => {
            let mut args: Vec<String> = Vec::new();
            args.push(String::from_str("-d"));
            args.push(distro.clone());
            args.push(String::from_str("--cd"));
            args.push(linux_path.clone());
            args.push(String::from_str("git"));
            let rest = owned_args(git_args);
            let ghost head = args@.map_values(|a: String| a@);
            let mut i: usize = 0;
            while i < rest.len()
                invariant
                    i <= rest@.len(),
                    head.len() == 5,
                    args@.map_values(|a: String| a@) == head + rest@.map_values(|a: String| a@).take(i as int),
                decreases rest@.len() - i,
            {
                let ghost before = args@.map_values(|a: String| a@);
                args.push(rest[i].clone());
                assert(args@.map_values(|a: String| a@) =~= before.push(rest@[i as int]@));
                assert(rest@.map_values(|a: String| a@).take(i + 1) =~= rest@.map_values(|a: String| a@).take(i as int).push(rest@[i as int]@));
                i = i + 1;
            }
            assert(rest@.map_values(|a: String| a@).take(rest@.len() as int) =~= rest@.map_values(|a: String| a@));
            assert(head =~= seq!["-d"@, distro@, "--cd"@, linux_path@, "git"@]);
            let spec = GitCommandSpec {
                program: String::from_str("wsl.exe"),
                args,
                current_dir: None,
                env: Vec::new(),
            };
            assert(crate::git::command_runner::pair_views(spec.env@) =~= Seq::empty());
            spec
        },
        _ => {
            assert(false);
            GitCommandSpec { program: String::new(), args: Vec::new(), current_dir: None, env: Vec::new() }
        },
    }
}

/// The command set up so that the editor variables cross into the
/// distribution (`WSLENV`).
pub fn with_interactive_rebase_editor_env(spec: GitCommandSpec) -> (r: GitCommandSpec)
    ensures
        r@ == (SpecView { env: spec@.env.push(("WSLENV"@, "GIT_SEQUENCE_EDITOR:GIT_EDITOR"@)), ..spec@ }),
{
    spec.with_env("WSLENV", "GIT_SEQUENCE_EDITOR:GIT_EDITOR")
}

impl GitBackend for WslBackend {
    fn command_spec(&self, repo: &RepoDescriptor, git_args: &[&str]) -> (r: Result<GitCommandSpec, TrunkError>)
        ensures
            self.descriptor().locator is Wsl ==> r is Ok,
            !(self.descriptor().locator is Wsl) ==> (r matches Err(e) && e.code@ == "backend_descriptor_mismatch"@),
    {
        match &self.repo.locator {
            RepoLocator::Wsl { .. } => Ok(spec_for_repo(&self.repo, git_args)),
            _ => Err(TrunkError::new("backend_descriptor_mismatch", "WSL backend received a non-WSL descriptor")),
        }
    }

    fn with_interactive_rebase_editor_env(&self, spec: GitCommandSpec, repo: &RepoDescriptor) -> (r: GitCommandSpec)
        ensures
            r@ == (SpecView { env: spec@.env.push(("WSLENV"@, "GIT_SEQUENCE_EDITOR:GIT_EDITOR"@)), ..spec@ }),
    {
        with_interactive_rebase_editor_env(spec)
    }
}

} // verus!
