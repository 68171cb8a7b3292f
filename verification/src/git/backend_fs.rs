//! Files of a repository, whichever backend it lives on: the rules a
//! repository-relative path must follow, locating files inside `.git`, and
//! temporary directories. Reading and writing the files is left to the
//! application.
use vstd::prelude::*;

use crate::error::TrunkError;
use crate::git::command_runner::{
    arg_views, push_arg, stderr_string, stderr_text, stdout_string, stdout_text, trimmed_chars,
    CommandOutput,
};
use crate::git::backend::{local_path, resolve_backend};
use crate::git::types::{locator_id, RepoDescriptor, RepoLocator};
use crate::git::wsl::fs::WslTempDir;
use crate::text::{chars_eq, chars_of, push_all, push_str, split, split_char, string_of, trim, views};

verus! {

/// Whether some `/`-separated component of a path is `..`.
pub open spec fn has_parent_component(p: Seq<char>) -> bool {
    exists|i: int| 0 <= i < split(p, '/').len() && #[trigger] split(p, '/')[i] == ".."@
}

/// Why a path may not name a file inside the repository: it is absolute, or
/// one of its components climbs out with `..`.
pub open spec fn relative_path_error(p: Seq<char>) -> Option<Seq<char>> {
    if p.len() > 0 && p[0] == '/' {
        Some("Repository-relative path must not be absolute: "@ + p)
    } else if has_parent_component(p) {
        Some("Repository-relative path escapes the repository: "@ + p)
    } else {
        None
    }
}

/// Checks that a path stays inside the repository (paths as on Unix: `/`
/// separates components and a leading `/` makes a path absolute).
pub fn validate_repo_relative(path: &str) -> (r: Result<(), TrunkError>)
    ensures
        match relative_path_error(path@) {
            None => r is Ok,
            Some(m) => r matches Err(e) && e.code@ == "bad_path"@ && e.message@ == m,
        },
{
    let cs = chars_of(path);
    if cs.len() > 0 && cs[0] == '/' {
        let mut m = chars_of("Repository-relative path must not be absolute: ");
        push_all(&mut m, &cs);
        return Err(TrunkError::from_chars("bad_path", &m));
    }
    let parts = split_char(&cs, '/');
    let dotdot = chars_of("..");
    let mut i: usize = 0;
    while i < parts.len()
        invariant
            views(parts@) == split(path@, '/'),
            dotdot@ == ".."@,
            cs@ == path@,
            !(path@.len() > 0 && path@[0] == '/'),
            i <= parts@.len(),
            forall|j: int| 0 <= j < i ==> #[trigger] split(path@, '/')[j] != ".."@,
        decreases parts@.len() - i,
    {
        assert(parts@[i as int]@ == split(path@, '/')[i as int]);
        if chars_eq(&parts[i], &dotdot) {
            assert(split(path@, '/')[i as int] == ".."@);
            assert(has_parent_component(path@));
            let mut m = chars_of("Repository-relative path escapes the repository: ");
            push_all(&mut m, &cs);
            return Err(TrunkError::from_chars("bad_path", &m));
        }
        i = i + 1;
    }
    Ok(())
}

/// The identity a repository's files are kept under.
pub fn repo_identity(repo: &RepoDescriptor) -> (r: String)
    ensures
        r@ == locator_id(repo.locator),
{
    repo.locator.stable_id()
}

/// The command that prints the absolute path of a file inside `.git`; refused
/// when the path is not repository-relative.
pub fn git_path_args(git_relative_path: &str) -> (r: Result<Vec<String>, TrunkError>)
    ensures
        match relative_path_error(git_relative_path@) {
            None => r matches Ok(a) && arg_views(a@) == seq![
                "rev-parse"@,
                "--path-format=absolute"@,
                "--git-path"@,
                git_relative_path@,
            ],
            Some(m) => r matches Err(e) && e.code@ == "bad_path"@ && e.message@ == m,
        },
{
    match validate_repo_relative(git_relative_path) {
        Ok(()) => {},
        Err(e) => return Err(e),
    }
    let mut a: Vec<String> = Vec::new();
    push_arg(&mut a, "rev-parse");
    push_arg(&mut a, "--path-format=absolute");
    push_arg(&mut a, "--git-path");
    push_arg(&mut a, git_relative_path);
    Ok(a)
}

/// The absolute path `rev-parse --git-path` printed, trimmed; `git_path_error`
/// with git's trimmed error output when it failed, or when it printed
/// nothing.
pub fn git_path_result(git_relative_path: &str, output: &CommandOutput) -> (r: Result<String, TrunkError>)
    ensures
        !output.success ==> (r matches Err(e) && e.code@ == "git_path_error"@ && e.message@ == trim(
            stderr_text(*output),
        )),
        output.success && trim(stdout_text(*output)).len() == 0 ==> (r matches Err(e) && e.code@
            == "git_path_error"@ && e.message@ == "Git path not found: "@ + git_relative_path@),
        output.success && trim(stdout_text(*output)).len() > 0 ==> (r matches Ok(p) && p@ == trim(
            stdout_text(*output),
        )),
{
    if !output.success {
        let t = trimmed_chars(stderr_string(output).as_str());
        return Err(TrunkError::from_chars("git_path_error", &t));
    }
    let p = trimmed_chars(stdout_string(output).as_str());
    if p.len() == 0 {
        let mut m = chars_of("Git path not found: ");
        push_str(&mut m, git_relative_path);
        return Err(TrunkError::from_chars("git_path_error", &m));
    }
    Ok(string_of(&p))
}

/// Where a file given relative to a repository lives on the host: the path
/// must stay inside the repository, and the repository must be served here.
pub open spec fn host_file_path(repo: RepoDescriptor, rel: Seq<char>) -> Result<Seq<char>, Seq<char>> {
    match relative_path_error(rel) {
        Some(_) => Err("bad_path"@),
        None => match repo.locator {
            RepoLocator::Local { path } => Ok(path_join(path@, rel)),
            RepoLocator::Wsl { .. } => Err("wsl_unsupported_platform"@),
        },
    }
}

fn host_path(repo: &RepoDescriptor, relative_path: &str) -> (r: Result<String, TrunkError>)
    ensures
        match host_file_path(*repo, relative_path@) {
            Ok(p) => r matches Ok(q) && q@ == p,
            Err(code) => r matches Err(e) && e.code@ == code,
        },
{
    match validate_repo_relative(relative_path) {
        Ok(()) => {},
        Err(e) => return Err(e),
    }
    match resolve_backend(repo.copy()) {
        Ok(_) => {},
        Err(e) => return Err(e),
    }
    let base = match local_path(repo) {
        Ok(b) => b,
        Err(e) => return Err(e),
    };
    Ok(BackendTempDir::Local(String::from_str(base)).join_display(relative_path))
}

/// The host path to read for a file given relative to a repository.
pub fn read_repo_file(repo: &RepoDescriptor, relative_path: &str) -> (r: Result<String, TrunkError>)
    ensures
        match host_file_path(*repo, relative_path@) {
            Ok(p) => r matches Ok(q) && q@ == p,
            Err(code) => r matches Err(e) && e.code@ == code,
        },
{
    host_path(repo, relative_path)
}

/// The host path to write for a file given relative to a repository.
pub fn write_repo_file(repo: &RepoDescriptor, relative_path: &str) -> (r: Result<String, TrunkError>)
    ensures
        match host_file_path(*repo, relative_path@) {
            Ok(p) => r matches Ok(q) && q@ == p,
            Err(code) => r matches Err(e) && e.code@ == code,
        },
{
    host_path(repo, relative_path)
}

/// The host path to delete for a file given relative to a repository; a
/// missing file is fine.
pub fn delete_repo_file(repo: &RepoDescriptor, relative_path: &str) -> (r: Result<String, TrunkError>)
    ensures
        match host_file_path(*repo, relative_path@) {
            Ok(p) => r matches Ok(q) && q@ == p,
            Err(code) => r matches Err(e) && e.code@ == code,
        },
{
    host_path(repo, relative_path)
}

/// The command that locates a file inside `.git` of a repository served here
/// (reading it is then a read of that absolute path).
pub fn read_git_file(repo: &RepoDescriptor, git_relative_path: &str) -> (r: Result<Vec<String>, TrunkError>)
    ensures
        repo.locator is Wsl ==> (r matches Err(e) && e.code@ == "wsl_unsupported_platform"@),
        repo.locator is Local ==> match relative_path_error(git_relative_path@) {
            None => r matches Ok(a) && arg_views(a@) == seq![
                "rev-parse"@,
                "--path-format=absolute"@,
                "--git-path"@,
                git_relative_path@,
            ],
            Some(m) => r matches Err(e) && e.code@ == "bad_path"@ && e.message@ == m,
        },
{
    match resolve_backend(repo.copy()) {
        Ok(_) => {},
        Err(e) => return Err(e),
    }
    git_path_args(git_relative_path)
}

/// The command that locates a file inside `.git` of a repository served here
/// (writing it is then a write of that absolute path).
pub fn write_git_file(repo: &RepoDescriptor, git_relative_path: &str) -> (r: Result<Vec<String>, TrunkError>)
    ensures
        repo.locator is Wsl ==> (r matches Err(e) && e.code@ == "wsl_unsupported_platform"@),
        repo.locator is Local ==> match relative_path_error(git_relative_path@) {
            None => r matches Ok(a) && arg_views(a@) == seq![
                "rev-parse"@,
                "--path-format=absolute"@,
                "--git-path"@,
                git_relative_path@,
            ],
            Some(m) => r matches Err(e) && e.code@ == "bad_path"@ && e.message@ == m,
        },
{
    read_git_file(repo, git_relative_path)
}

/// A temporary directory: on the host, or inside a WSL distribution.
#[derive(Debug, Clone)]
pub enum BackendTempDir {
    Local(String),
    Wsl(WslTempDir),
}

/// `Path::join` on Unix: an absolute child replaces the base; otherwise the
/// child follows the base, with a `/` between them unless the base is empty
/// or already ends with one.
pub open spec fn path_join(base: Seq<char>, child: Seq<char>) -> Seq<char> {
    if child.len() > 0 && child[0] == '/' {
        child
    } else if base.len() == 0 || base.last() == '/' {
        base + child
    } else {
        base + "/"@ + child
    }
}

impl BackendTempDir {
    /// How a child of the directory is written where it lives.
    pub fn join_display(&self, child: &str) -> (r: String)
        ensures
            r@ == match self {
                BackendTempDir::Local(p) => path_join(p@, child@),
                BackendTempDir::Wsl(t) => t.linux_path@ + "/"@ + child@,
            },
    {
        match self {
            BackendTempDir::Local(p) => {
                proof {
                    reveal_strlit("/");
                }
                let c = chars_of(child);
                if c.len() > 0 && c[0] == '/' {
                    return string_of(&c);
                }
                let mut v = chars_of(p.as_str());
                if v.len() > 0 && v[v.len() - 1] != '/' {
                    v.push('/');
                }
                push_all(&mut v, &c);
                string_of(&v)
            },
            BackendTempDir::Wsl(t) => t.join_display(child),
        }
    }

    /// The directory's path on the host; none for a directory inside WSL.
    pub fn local_path(&self) -> (r: Option<String>)
        ensures
            match self {
                BackendTempDir::Local(p) => r matches Some(q) && q@ == p@,
                BackendTempDir::Wsl(_) => r is None,
            },
    {
        match self {
            BackendTempDir::Local(p) => Some(p.clone()),
            BackendTempDir::Wsl(_) => None,
        }
    }
}

} // verus!
