//! Opening a repository on the host, and whether its tracked files have
//! changes that would block a checkout.
use vstd::prelude::*;

use crate::error::TrunkError;
use crate::git::graph::{is_some_walk_page, walk_commits};
use crate::git::repo::error_message;
use crate::git::types::GraphResult;
use crate::text::{chars_of, push_str};

verus! {

/// The status bits, as libgit2 numbers them, of a change to a tracked file:
/// new, modified, deleted, renamed or retyped in the index (bits 0 to 4), and
/// modified, deleted, retyped or renamed in the working tree (bits 8 to 11).
/// A file that is only new in the working tree (bit 7) is not among them: git
/// checks out over untracked files.
pub const CHECKOUT_BLOCKING: u32 = 0x0F1F;

/// Whether a status entry's bits include a change that blocks a checkout.
pub open spec fn blocks_checkout(bits: u32) -> bool {
    bits & CHECKOUT_BLOCKING != 0
}

/// `Repository::statuses` with `StatusOptions::include_untracked` and
/// `include_ignored` as given: each entry's `Status` bits.
#[verifier::external_body]
fn status_bits(
    repo: &git2::Repository,
    include_untracked: bool,
    include_ignored: bool,
) -> Result<Vec<u32>, git2::Error> {
    let mut opts = git2::StatusOptions::new();
    opts.include_untracked(include_untracked).include_ignored(include_ignored);
    let statuses = repo.statuses(Some(&mut opts))?;
    Ok(statuses.iter().map(|e| e.status().bits()).collect())
}

/// Whether any of the status entries blocks a checkout.
pub open spec fn blocking_in(entries: Seq<u32>) -> bool {
    exists|i: int| 0 <= i < entries.len() && blocks_checkout(#[trigger] entries[i])
}

/// Whether any status entry blocks a checkout.
pub fn any_blocking(entries: &Vec<u32>) -> (r: bool)
    ensures
        r == blocking_in(entries@),
{
    for i in 0..entries.len()
        invariant
            forall|j: int| 0 <= j < i ==> !blocks_checkout(#[trigger] entries@[j]),
    {
        if entries[i] & CHECKOUT_BLOCKING != 0 {
            assert(blocks_checkout(entries@[i as int]));
            return true;
        }
    }
    false
}

/// Whether the repository's tracked files have changes, staged or not, that
/// would block a checkout; untracked files do not count.
/// What the repository holds depends on the disk; what is decided from the
/// status entries read is stated by `any_blocking`.
pub fn is_repo_dirty(repo: &git2::Repository) -> Result<bool, git2::Error> {
    match status_bits(repo, false, false) {
        Ok(es) => {
            let d = any_blocking(&es);
            Ok(d)
        },
        Err(e) => Err(e),
    }
}

/// `Repository::open`.
#[verifier::external_body]
fn open_repository(path: &str) -> Result<git2::Repository, git2::Error> {
    git2::Repository::open(path)
}

/// Opens the repository at a path, or reports `not_a_git_repo` with git's
/// message.
pub fn open_repo(path: &str) -> (r: Result<git2::Repository, TrunkError>)
    ensures
        r matches Err(e) ==> e.code@ == "not_a_git_repo"@,
{
    match open_repository(path) {
        Ok(r) => Ok(r),
        Err(e) => {
            let m = error_message(&e);
            Err(TrunkError::new("not_a_git_repo", m.as_str()))
        },
    }
}

/// Checks that a path holds a git repository.
pub fn validate_and_open(path: &str) -> (r: Result<(), TrunkError>)
    ensures
        r matches Err(e) ==> e.code@ == "not_a_git_repo"@,
{
    match open_repo(path) {
        Ok(_) => Ok(()),
        Err(e) => Err(e),
    }
}

/// The whole commit graph of an open repository, given the path it was
/// opened from; `not_open` when the id names no open repository.
pub fn commit_graph(repo_id: &str, open_path: Option<&str>) -> (r: Result<GraphResult, TrunkError>)
    ensures
        open_path is None ==> (r matches Err(e) && e.code@ == "not_open"@ && e.message@
            == "Repository not open: "@ + repo_id@),
        open_path is Some ==> !(r matches Err(e) && e.code@ == "not_open"@),
        r matches Err(e) ==> e.code@ == "not_open"@ || e.code@ == "not_a_git_repo"@ || e.code@ == "git_error"@
            || e.code@ == "graph_too_large"@,
        r matches Ok(g) ==> is_some_walk_page(g, 0, usize::MAX as int),
{
    let path = match open_path {
        Some(p) => p,
        None => {
            let mut m = chars_of("Repository not open: ");
            push_str(&mut m, repo_id);
            return Err(TrunkError::from_chars("not_open", &m));
        },
    };
    proof {
        reveal_strlit("not_open");
        reveal_strlit("not_a_git_repo");
        reveal_strlit("git_error");
        reveal_strlit("graph_too_large");
        assert("not_a_git_repo"@ != "not_open"@) by {
            assert("not_a_git_repo"@.len() != "not_open"@.len());
        }
        assert("git_error"@ != "not_open"@) by {
            assert("git_error"@.len() != "not_open"@.len());
        }
        assert("graph_too_large"@ != "not_open"@) by {
            assert("graph_too_large"@.len() != "not_open"@.len());
        }
    }
    let mut repo = match open_repo(path) {
        Ok(r) => r,
        Err(e) => return Err(e),
    };
    walk_commits(&mut repo, 0, usize::MAX)
}

} // verus!
