//! The working tree captured as a real but dangling commit, so that
//! uncommitted work can be reviewed like any commit: its tree is the working
//! tree (staged, unstaged and untracked files that are not ignored) and its
//! parent is `HEAD`. Snapshots are pinned by references under
//! `refs/trunk/review-snapshots/` so that garbage collection keeps them.
use vstd::prelude::*;

use crate::error::TrunkError;
use crate::git::repo::{commit_tree_name, git_failure, is_oid_hex, opt_view, tree_of_commit};
use crate::git::types::string_views;
use crate::text::{chars_eq, chars_of, decimal, push_decimal, push_str, string_of};

verus! {

#[verifier::external_type_specification]
#[verifier::external_body]
pub struct ExIndex(git2::Index);

/// `Index::new`: an empty in-memory index.
#[verifier::external_body]
fn empty_index() -> Result<git2::Index, git2::Error> {
    git2::Index::new()
}

/// `Repository::set_index`: makes the repository use an index in memory,
/// without writing `.git/index`.
#[verifier::external_body]
fn use_index(repo: &git2::Repository, idx: &mut git2::Index) -> Result<(), git2::Error> {
    repo.set_index(idx)
}

/// `Repository::index`.
#[verifier::external_body]
fn repo_index(repo: &git2::Repository) -> Result<git2::Index, git2::Error> {
    repo.index()
}

/// `Index::add_all` of one pathspec with the default options, which follow
/// `.gitignore`.
#[verifier::external_body]
fn add_all_matching(idx: &mut git2::Index, pathspec: &str) -> Result<(), git2::Error> {
    idx.add_all([pathspec].iter(), git2::IndexAddOption::DEFAULT, None)
}

/// `Index::write_tree_to`: writes the index's tree objects, in hex.
#[verifier::external_body]
fn write_tree(idx: &mut git2::Index, repo: &git2::Repository) -> (r: Result<String, git2::Error>)
    ensures
        r matches Ok(o) ==> is_oid_hex(o@),
{
    idx.write_tree_to(repo).map(|o| o.to_string())
}

/// Whether `Repository::head` fails with `ErrorCode::UnbornBranch`: the
/// repository has no commit yet.
#[verifier::external_body]
fn head_unborn(repo: &git2::Repository) -> bool {
    match repo.head() {
        Err(e) => e.code() == git2::ErrorCode::UnbornBranch,
        Ok(_) => false,
    }
}

/// `Repository::head`, then `Reference::peel_to_commit`: the id of the
/// commit `HEAD` points at, in hex.
#[verifier::external_body]
fn head_commit_id(repo: &git2::Repository) -> (r: Result<String, git2::Error>)
    ensures
        r matches Ok(o) ==> is_oid_hex(o@),
{
    Ok(repo.head()?.peel_to_commit()?.id().to_string())
}

/// `Signature::now`: the current time, in seconds since the epoch, and the
/// machine's offset from UTC, in minutes.
#[verifier::external_body]
fn now_time(name: &str, email: &str) -> Result<(i64, i32), git2::Error> {
    let s = git2::Signature::now(name, email)?;
    Ok((s.when().seconds(), s.when().offset_minutes()))
}

/// The id of the commit object with the given tree, parents (in order),
/// message, and one signature (name, email, seconds, offset in minutes) as
/// author and committer. The object is stored under the hash of exactly
/// these contents, so its id depends on them alone.
pub uninterp spec fn commit_object_name(
    tree: Seq<char>,
    parents: Seq<Seq<char>>,
    message: Seq<char>,
    name: Seq<char>,
    email: Seq<char>,
    seconds: i64,
    offset: i32,
) -> Seq<char>;

/// `Repository::commit` with no reference to update: a dangling commit of
/// the tree and parents given by id in hex, with `Signature::new` of the
/// given name, email and time as author and committer; its id in hex.
#[verifier::external_body]
fn commit_dangling(repo: &git2::Repository, tree: &str, parents: &Vec<String>, message: &str, name: &str, email: &str, seconds: i64, offset: i32) -> (r: Result<String, git2::Error>)
    ensures
        r matches Ok(o) ==> is_oid_hex(o@) && o@ == commit_object_name(tree@, string_views(parents@), message@, name@, email@, seconds, offset),
{
    let t = repo.find_tree(git2::Oid::from_str(tree)?)?;
    let ps = parents.iter().map(|p| git2::Oid::from_str(p).and_then(|o| repo.find_commit(o)));
    let ps: Vec<git2::Commit> = ps.collect::<Result<_, _>>()?;
    let sig = git2::Signature::new(name, email, &git2::Time::new(seconds, offset))?;
    let refs: Vec<&git2::Commit> = ps.iter().collect();
    repo.commit(None, &sig, &sig, message, &t, &refs).map(|o| o.to_string())
}

/// `Repository::reference`, forced, pointing a name at a commit given in hex,
/// with the given reflog message.
#[verifier::external_body]
fn force_reference(repo: &git2::Repository, name: &str, oid: &str, log_message: &str) -> Result<(), git2::Error> {
    repo.reference(name, git2::Oid::from_str(oid)?, true, log_message).map(|_| ())
}

/// `Repository::references_glob`: each reference's name, none where the
/// reference or its name could not be read.
#[verifier::external_body]
fn reference_names(repo: &git2::Repository, glob: &str) -> Result<Vec<Option<String>>, git2::Error> {
    Ok(repo.references_glob(glob)?.map(|r| r.ok().and_then(|x| x.name().map(str::to_owned))).collect())
}

/// `Repository::find_reference`, then `Reference::delete`; a failure is
/// ignored.
#[verifier::external_body]
fn delete_reference(repo: &git2::Repository, name: &str) {
    if let Ok(mut r) = repo.find_reference(name) {
        let _ = r.delete();
    }
}

/// The tree of the whole working tree (staged, unstaged, and untracked files
/// that are not ignored), written to the object database through an index
/// kept in memory: the repository's `.git/index` is never written. The id
/// comes back in hex.
pub fn workdir_tree_oid(repo: &git2::Repository) -> (r: Result<String, TrunkError>)
    ensures
        r matches Ok(o) ==> is_oid_hex(o@),
        r matches Err(e) ==> e.code@ == "git_error"@,
{
    let mut fresh = match empty_index() {
        Ok(i) => i,
        Err(e) => return Err(git_failure(&e)),
    };
    match use_index(repo, &mut fresh) {
        Ok(()) => {},
        Err(e) => return Err(git_failure(&e)),
    }
    let mut idx = match repo_index(repo) {
        Ok(i) => i,
        Err(e) => return Err(git_failure(&e)),
    };
    match add_all_matching(&mut idx, "*") {
        Ok(()) => {},
        Err(e) => return Err(git_failure(&e)),
    }
    match write_tree(&mut idx, repo) {
        Ok(o) => Ok(o),
        Err(e) => Err(git_failure(&e)),
    }
}

/// Whether the repository has no commit yet.
pub fn is_head_unborn(repo: &git2::Repository) -> bool {
    head_unborn(repo)
}

/// `n` in decimal, with a `-` when negative.
pub open spec fn signed_decimal(n: i64) -> Seq<char> {
    if n < 0 {
        "-"@ + decimal((0 - n) as nat)
    } else {
        decimal(n as nat)
    }
}

/// The message of a snapshot commit made at a given time.
pub fn snapshot_message(seconds: i64) -> (r: String)
    ensures
        r@ == "Uncommitted changes — "@ + signed_decimal(seconds),
{
    let mut v = chars_of("Uncommitted changes — ");
    if seconds < 0 {
        push_str(&mut v, "-");
        let m: u64 = (0i128 - seconds as i128) as u64;
        push_decimal(&mut v, m);
    } else {
        push_decimal(&mut v, seconds as u64);
    }
    string_of(&v)
}

/// The name and email a snapshot commit is signed with.
pub const SNAPSHOT_AUTHOR: &'static str = "Trunk";
pub const SNAPSHOT_EMAIL: &'static str = "review@trunk.local";

/// `o` is a snapshot commit: the commit of tree `tree` with the parents
/// `parents` (`HEAD`'s commit, or none in a repository without commits),
/// made at `seconds` (offset `offset`) with the snapshot message and
/// signature.
pub open spec fn snapshot_commit(o: Seq<char>, tree: Seq<char>, parents: Seq<Seq<char>>, seconds: i64, offset: i32) -> bool {
    &&& is_oid_hex(o)
    &&& is_oid_hex(tree)
    &&& parents.len() <= 1
    &&& forall|i: int| 0 <= i < parents.len() ==> is_oid_hex(#[trigger] parents[i])
    &&& o == commit_object_name(
        tree,
        parents,
        "Uncommitted changes — "@ + signed_decimal(seconds),
        SNAPSHOT_AUTHOR@,
        SNAPSHOT_EMAIL@,
        seconds,
        offset,
    )
}

/// `o` is a snapshot commit of some tree, parents and time.
pub open spec fn is_snapshot(o: Seq<char>) -> bool {
    exists|tree: Seq<char>, parents: Seq<Seq<char>>, seconds: i64, offset: i32|
        #[trigger] snapshot_commit(o, tree, parents, seconds, offset)
}

/// The parents of a snapshot, given what a read of `HEAD` gave: `HEAD`'s
/// commit, none when the repository has no commit yet.
pub open spec fn snapshot_parents_of(unborn: bool, head: Option<Seq<char>>) -> Seq<Seq<char>> {
    if unborn {
        Seq::empty()
    } else {
        match head {
            Some(h) => seq![h],
            None => Seq::empty(),
        }
    }
}

/// The parents of a snapshot: `HEAD`'s commit, none when the repository has
/// no commit yet.
pub fn snapshot_parents(unborn: bool, head: Option<String>) -> (r: Vec<String>)
    ensures
        string_views(r@) == snapshot_parents_of(unborn, opt_view(head)),
{
    let mut r: Vec<String> = Vec::new();
    if !unborn {
        match head {
            Some(h) => r.push(h),
            None => {},
        }
    }
    assert(string_views(r@) =~= snapshot_parents_of(unborn, opt_view(head)));
    r
}

/// Commits a snapshot of the tree `tree` (in hex) as a dangling commit: its
/// parents are those a read of `HEAD` gave (`snapshot_parents`), it is signed
/// `SNAPSHOT_AUTHOR <SNAPSHOT_EMAIL>` at `seconds` (offset `offset` minutes)
/// and carries `snapshot_message(seconds)`. Returns its id in hex.
pub fn commit_snapshot(
    repo: &git2::Repository,
    tree: &str,
    unborn: bool,
    head: Option<String>,
    seconds: i64,
    offset: i32,
) -> (r: Result<String, TrunkError>)
    ensures
        r matches Ok(o) ==> is_oid_hex(o@) && o@ == commit_object_name(
            tree@,
            snapshot_parents_of(unborn, opt_view(head)),
            "Uncommitted changes — "@ + signed_decimal(seconds),
            SNAPSHOT_AUTHOR@,
            SNAPSHOT_EMAIL@,
            seconds,
            offset,
        ),
        r matches Err(e) ==> e.code@ == "git_error"@,
{
    let parents = snapshot_parents(unborn, head);
    let msg = snapshot_message(seconds);
    match commit_dangling(repo, tree, &parents, msg.as_str(), SNAPSHOT_AUTHOR, SNAPSHOT_EMAIL, seconds, offset) {
        Ok(o) => Ok(o),
        Err(e) => Err(git_failure(&e)),
    }
}

/// Captures the working tree as a dangling commit whose parent is `HEAD`
/// (no parent when the repository has no commit yet), and returns its id
/// in hex: `commit_snapshot` of the tree `workdir_tree_oid` wrote, of what
/// a read of `HEAD` gave, and of the time now.
pub fn snapshot_working_tree(repo: &git2::Repository) -> (r: Result<String, TrunkError>)
    ensures
        r matches Ok(o) ==> is_snapshot(o@),
        r matches Err(e) ==> e.code@ == "git_error"@,
{
    let tree_oid = match workdir_tree_oid(repo) {
        Ok(o) => o,
        Err(e) => return Err(e),
    };
    let unborn = is_head_unborn(repo);
    let head = if unborn {
        None
    } else {
        match head_commit_id(repo) {
            Ok(h) => Some(h),
            Err(e) => return Err(git_failure(&e)),
        }
    };
    let ghost parents = snapshot_parents_of(unborn, opt_view(head));
    let (seconds, offset) = match now_time(SNAPSHOT_AUTHOR, SNAPSHOT_EMAIL) {
        Ok(t) => t,
        Err(e) => return Err(git_failure(&e)),
    };
    match commit_snapshot(repo, tree_oid.as_str(), unborn, head, seconds, offset) {
        Ok(o) => {
            proof {
                assert(snapshot_commit(o@, tree_oid@, parents, seconds, offset));
            }
            Ok(o)
        },
        Err(e) => Err(e),
    }
}

/// Whether a prior snapshot whose commit has tree `prior_tree` is reused for
/// the current working tree `current`: exactly when the trees are the same.
pub fn reuses_prior(prior_tree: &str, current: &str) -> (r: bool)
    ensures
        r == (prior_tree@ == current@),
{
    chars_eq(&chars_of(prior_tree), &chars_of(current))
}

/// The outcome of deciding a snapshot against the current working tree
/// `current`: the prior snapshot, unmade, exactly when there is one and its
/// commit's tree is `current`; otherwise a new snapshot.
pub open spec fn snapshot_decided(prior: Option<Seq<char>>, current: Seq<char>, o: Seq<char>, created: bool) -> bool {
    &&& (!created <==> (prior matches Some(p) && commit_tree_name(p) == current))
    &&& (!created ==> prior == Some(o))
    &&& (created ==> is_snapshot(o))
}

/// The outcome of deciding a snapshot against some current working tree.
pub open spec fn is_decided(prior: Option<Seq<char>>, o: Seq<char>, created: bool) -> bool {
    exists|current: Seq<char>| is_oid_hex(current) && #[trigger] snapshot_decided(prior, current, o, created)
}

/// Decides the snapshot of a session against the current working tree
/// `current` (a tree id in hex): the prior snapshot when its commit's tree is
/// `current`, else a new snapshot. Says whether a new one was made.
pub fn decide_against(repo: &git2::Repository, prior: Option<&str>, current: &str) -> (r: Result<(String, bool), TrunkError>)
    ensures
        r matches Ok((o, created)) ==> snapshot_decided(opt_str(prior), current@, o@, created),
        r matches Err(e) ==> e.code@ == "git_error"@,
{
    match prior {
        Some(p) => {
            let prior_tree = match tree_of_commit(repo, p) {
                Ok(t) => t,
                Err(e) => return Err(git_failure(&e)),
            };
            if reuses_prior(prior_tree.as_str(), current) {
                return Ok((String::from_str(p), false));
            }
        },
        None => {},
    }
    match snapshot_working_tree(repo) {
        Ok(o) => Ok((o, true)),
        Err(e) => Err(e),
    }
}

/// Gets or makes the working-tree snapshot of a session: `decide_against` the
/// tree `workdir_tree_oid` wrote. Says whether a new one was made.
pub fn decide_snapshot(repo: &git2::Repository, prior: Option<&str>) -> (r: Result<(String, bool), TrunkError>)
    ensures
        r matches Ok((o, created)) ==> is_decided(opt_str(prior), o@, created),
        r matches Err(e) ==> e.code@ == "git_error"@,
{
    let current = match workdir_tree_oid(repo) {
        Ok(o) => o,
        Err(e) => return Err(e),
    };
    match decide_against(repo, prior, current.as_str()) {
        Ok((o, created)) => {
            assert(snapshot_decided(opt_str(prior), current@, o@, created));
            Ok((o, created))
        },
        Err(e) => Err(e),
    }
}

/// The view of an optional text.
pub open spec fn opt_str(o: Option<&str>) -> Option<Seq<char>> {
    match o {
        Some(s) => Some(s@),
        None => None,
    }
}

/// The namespace of the references that pin snapshots. It lies outside
/// `refs/heads`, `refs/remotes` and `refs/tags`, so the pins stay out of the
/// branch and commit graph.
pub const SNAPSHOT_REF_PREFIX: &'static str = "refs/trunk/review-snapshots/";

/// The reflog message of a snapshot pin.
pub const SNAPSHOT_LOG_MESSAGE: &'static str = "trunk working-tree review snapshot";

/// The reference that pins a snapshot, named by its id.
pub fn snapshot_ref_name(oid: &str) -> (r: String)
    ensures
        r@ == SNAPSHOT_REF_PREFIX@ + oid@,
{
    let mut v = chars_of(SNAPSHOT_REF_PREFIX);
    push_str(&mut v, oid);
    string_of(&v)
}

/// Pins a snapshot so that garbage collection keeps it; pinning it again is
/// harmless.
pub fn keep_snapshot_ref(repo: &git2::Repository, oid: &str) -> (r: Result<(), TrunkError>)
    ensures
        r matches Err(e) ==> e.code@ == "git_error"@,
{
    let name = snapshot_ref_name(oid);
    match force_reference(repo, name.as_str(), oid, SNAPSHOT_LOG_MESSAGE) {
        Ok(()) => Ok(()),
        Err(e) => Err(git_failure(&e)),
    }
}

/// Removes every snapshot pin; a pin that cannot be removed is left.
pub fn clear_snapshot_refs(repo: &git2::Repository) -> (r: Result<(), TrunkError>)
    ensures
        r matches Err(e) ==> e.code@ == "git_error"@,
{
    let mut glob = chars_of(SNAPSHOT_REF_PREFIX);
    push_str(&mut glob, "*");
    let g = string_of(&glob);
    let names = match reference_names(repo, g.as_str()) {
        Ok(n) => n,
        Err(e) => return Err(git_failure(&e)),
    };
    for i in 0..names.len() {
        match &names[i] {
            Some(n) => delete_reference(repo, n.as_str()),
            None => {},
        }
    }
    Ok(())
}

} // verus!
