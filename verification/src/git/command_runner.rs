//! The command lines that run git for a repository.
//!
//! A `GitCommandSpec` says which program to start, with which arguments, in
//! which directory and with which extra environment; starting it is left to
//! the application.
use vstd::prelude::*;

use crate::error::TrunkError;
use crate::git::backend::{resolve_backend, GitBackend};
use crate::git::types::RepoDescriptor;
use crate::text::{chars_of, decode_lossy, lossy_utf8, trim, trim_chars};

verus! {

/// A git command line for one repository.
#[derive(Debug, Clone, PartialEq, Eq)]
pub struct GitCommandSpec {
    pub program: String,
    pub args: Vec<String>,
    pub current_dir: Option<String>,
    pub env: Vec<(String, String)>,
}

pub open spec fn pair_views(v: Seq<(String, String)>) -> Seq<(Seq<char>, Seq<char>)> {
    v.map_values(|p: (String, String)| (p.0@, p.1@))
}

/// The model of a command: program, arguments, directory and environment.
pub struct SpecView {
    pub program: Seq<char>,
    pub args: Seq<Seq<char>>,
    pub current_dir: Option<Seq<char>>,
    pub env: Seq<(Seq<char>, Seq<char>)>,
}

impl View for GitCommandSpec {
    type V = SpecView;

    open spec fn view(&self) -> SpecView {
        SpecView {
            program: self.program@,
            args: self.args@.map_values(|a: String| a@),
            current_dir: match self.current_dir {
                Some(d) => Some(d@),
                None => None,
            },
            env: pair_views(self.env@),
        }
    }
}

pub open spec fn str_views(v: Seq<&str>) -> Seq<Seq<char>> {
    v.map_values(|a: &str| a@)
}

/// Owned copies of the arguments.
pub fn owned_args(args: &[&str]) -> (r: Vec<String>)
    ensures
        r@.map_values(|a: String| a@) == str_views(args@),
{
    let mut out: Vec<String> = Vec::new();
    let n = args.len();
    for i in 0..n
        invariant
            n == args@.len(),
            out@.map_values(|a: String| a@) == str_views(args@).take(i as int),
    {
        let ghost before = out@.map_values(|a: String| a@);
        out.push(String::from_str(args[i]));
        assert(out@.map_values(|a: String| a@) =~= before.push(args@[i as int]@));
        assert(str_views(args@).take(i + 1) =~= str_views(args@).take(i as int).push(args@[i as int]@));
    }
    assert(str_views(args@).take(n as int) =~= str_views(args@));
    out
}

impl GitCommandSpec {
    /// The command that runs `git <git_args>` for the repository, as its
    /// backend builds it; an error when no backend serves it here.
    pub fn for_repo(repo: &RepoDescriptor, git_args: &[&str]) -> (r: Result<GitCommandSpec, TrunkError>)
        ensures
            match repo.locator {
                crate::git::types::RepoLocator::Local { path } => r matches Ok(s) && s@ == (SpecView {
                    program: "git"@,
                    args: str_views(git_args@),
                    current_dir: Some(path@),
                    env: Seq::empty(),
                }),
                crate::git::types::RepoLocator::Wsl { .. } => r matches Err(e) && e.code@
                    == "wsl_unsupported_platform"@,
            },
    {
        let backend = resolve_backend(repo.copy())?;
        backend.command_spec(repo, git_args)
    }

    /// The same command with `key=value` added to its environment.
    pub fn with_env(self, key: &str, value: &str) -> (r: GitCommandSpec)
        ensures
            r@ == (SpecView { env: self@.env.push((key@, value@)), ..self@ }),
    {
        let mut s = self;
        let ghost before = pair_views(s.env@);
        s.env.push((String::from_str(key), String::from_str(value)));
        assert(pair_views(s.env@) =~= before.push((key@, value@)));
        s
    }

    /// The same command set up for an interactive rebase driven by the
    /// given sequence-editor and editor scripts.
    pub fn with_interactive_rebase_editor_env(
        self,
        repo: &RepoDescriptor,
        seq_editor_path: &str,
        editor_script_path: &str,
    ) -> (r: Result<GitCommandSpec, TrunkError>)
        ensures
            match repo.locator {
                crate::git::types::RepoLocator::Local { .. } => r matches Ok(s) && s@ == (SpecView {
                    env: self@.env.push(("GIT_SEQUENCE_EDITOR"@, seq_editor_path@)).push(
                        ("GIT_EDITOR"@, editor_script_path@),
                    ),
                    ..self@
                }),
                crate::git::types::RepoLocator::Wsl { .. } => r matches Err(e) && e.code@
                    == "wsl_unsupported_platform"@,
            },
    {
        let spec = self.with_env("GIT_SEQUENCE_EDITOR", seq_editor_path).with_env(
            "GIT_EDITOR",
            editor_script_path,
        );
        let backend = resolve_backend(repo.copy())?;
        Ok(backend.with_interactive_rebase_editor_env(spec, repo))
    }
}


/// What a finished command left behind: whether it exited successfully,
/// and the bytes it wrote to standard output and standard error.
#[derive(Debug, Clone)]
pub struct CommandOutput {
    pub success: bool,
    pub stdout: Vec<u8>,
    pub stderr: Vec<u8>,
}

/// Standard output, decoded.
pub open spec fn stdout_text(o: CommandOutput) -> Seq<char> {
    lossy_utf8(o.stdout@)
}

/// Standard error, decoded.
pub open spec fn stderr_text(o: CommandOutput) -> Seq<char> {
    lossy_utf8(o.stderr@)
}

/// The trimmed standard error of a failed command, or `fallback` when that
/// is empty.
pub open spec fn failure_message(o: CommandOutput, fallback: Seq<char>) -> Seq<char> {
    if trim(stderr_text(o)).len() == 0 {
        fallback
    } else {
        trim(stderr_text(o))
    }
}

/// Standard output as text.
pub fn stdout_string(o: &CommandOutput) -> (r: String)
    ensures
        r@ == stdout_text(*o),
{
    decode_lossy(o.stdout.as_slice())
}

/// Standard error as text.
pub fn stderr_string(o: &CommandOutput) -> (r: String)
    ensures
        r@ == stderr_text(*o),
{
    decode_lossy(o.stderr.as_slice())
}

/// The characters of `s` with leading and trailing white space removed.
pub fn trimmed_chars(s: &str) -> (r: Vec<char>)
    ensures
        r@ == trim(s@),
{
    trim_chars(&chars_of(s))
}

/// The error a failed command reports: `code`, with the trimmed standard
/// error as message, or `fallback` when standard error is blank.
pub fn failure_error(o: &CommandOutput, code: &str, fallback: &str) -> (e: TrunkError)
    ensures
        e.code@ == code@,
        e.message@ == failure_message(*o, fallback@),
{
    let err = stderr_string(o);
    let t = trimmed_chars(err.as_str());
    if t.len() == 0 {
        TrunkError::new(code, fallback)
    } else {
        TrunkError::from_chars(code, &t)
    }
}

/// The error of a failed command whose message is its untrimmed standard
/// error.
pub fn stderr_error(o: &CommandOutput, code: &str) -> (e: TrunkError)
    ensures
        e.code@ == code@,
        e.message@ == stderr_text(*o),
{
    let err = stderr_string(o);
    TrunkError::new(code, err.as_str())
}


/// The text of each argument.
pub open spec fn arg_views(v: Seq<String>) -> Seq<Seq<char>> {
    v.map_values(|a: String| a@)
}

/// Appends one argument.
pub fn push_arg(v: &mut Vec<String>, s: &str)
    ensures
        arg_views(final(v)@) == arg_views(old(v)@).push(s@),
{
    let ghost before = arg_views(v@);
    v.push(String::from_str(s));
    assert(arg_views(v@) =~= before.push(s@));
}

/// Arguments from string slices.
pub fn args_of(a: &[&str]) -> (r: Vec<String>)
    ensures
        arg_views(r@) == str_views(a@),
{
    let mut v: Vec<String> = Vec::new();
    for i in 0..a.len()
        invariant
            arg_views(v@) == str_views(a@.subrange(0, i as int)),
    {
        push_arg(&mut v, a[i]);
        assert(str_views(a@.subrange(0, i + 1)) =~= str_views(a@.subrange(0, i as int)).push(a@[i as int]@));
    }
    assert(a@.subrange(0, a@.len() as int) =~= a@);
    v
}

/// Appends owned arguments.
pub fn push_args(v: &mut Vec<String>, extra: &Vec<String>)
    ensures
        arg_views(final(v)@) == arg_views(old(v)@) + arg_views(extra@),
{
    let ghost before = arg_views(v@);
    for i in 0..extra.len()
        invariant
            arg_views(v@) == before + arg_views(extra@.subrange(0, i as int)),
    {
        push_arg(v, extra[i].as_str());
        assert(arg_views(extra@.subrange(0, i + 1)) =~= arg_views(extra@.subrange(0, i as int)).push(extra@[i as int]@));
    }
    assert(extra@.subrange(0, extra@.len() as int) =~= extra@);
}

} // verus!
