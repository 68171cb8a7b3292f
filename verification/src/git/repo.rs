//! The library's window onto a git repository on disk, through `git2`.
//!
//! Every item here is trusted: its body calls `git2` and turns what comes back
//! into plain values. What a repository holds depends on the disk, so these
//! items promise little of the values they return: at most that an object id
//! comes back as `Oid`'s `Display` writes it (40 lowercase hex digits, from
//! `git_oid_tostr` on a SHA-1 id); the verified code around them is correct
//! whatever else they return.
use vstd::prelude::*;

use crate::error::TrunkError;
use crate::git::types::string_views;

verus! {

#[verifier::external_type_specification]
#[verifier::external_body]
pub struct ExRepository(git2::Repository);

#[verifier::external_type_specification]
#[verifier::external_body]
pub struct ExGitError(git2::Error);

#[verifier::external_type_specification]
#[verifier::external_body]
pub struct ExOid(git2::Oid);

#[verifier::external_type_specification]
#[verifier::external_body]
pub struct ExRevwalk<'r>(git2::Revwalk<'r>);

#[verifier::external_type_specification]
#[verifier::external_body]
pub struct ExReferences<'r>(git2::References<'r>);

#[verifier::external_type_specification]
#[verifier::external_body]
pub struct ExReference<'r>(git2::Reference<'r>);

#[verifier::external_type_specification]
#[verifier::external_body]
pub struct ExCommit<'r>(git2::Commit<'r>);

/// An object id as `Oid`'s `Display` writes it: 40 lowercase hex digits.
pub open spec fn is_oid_hex(s: Seq<char>) -> bool {
    &&& s.len() == 40
    &&& forall|i: int| 0 <= i < s.len() ==> ('0' <= #[trigger] s[i] <= '9') || ('a' <= s[i] <= 'f')
}

/// What a reference shows of itself.
#[derive(Debug, Clone)]
pub struct RefRecord {
    pub target: Option<String>,
    pub is_branch: bool,
    pub is_remote: bool,
    pub is_tag: bool,
    pub name: Option<String>,
    pub shorthand: Option<String>,
}

/// One stash entry: its position, its message and its commit id.
#[derive(Debug, Clone)]
pub struct StashRecord {
    pub index: usize,
    pub name: String,
    pub oid: String,
}

/// `git2::Error::message`: the error's text.
#[verifier::external_body]
pub(crate) fn error_message(e: &git2::Error) -> String {
    e.message().to_owned()
}

/// A git error as the library reports it.
pub(crate) fn git_failure(e: &git2::Error) -> (r: TrunkError)
    ensures
        r.code@ == "git_error"@,
{
    let m = error_message(e);
    TrunkError::new("git_error", m.as_str())
}

/// `Repository::stash_foreach`, collecting every entry in the order the
/// callback sees them. A failure of the walk ends the list.
#[verifier::external_body]
pub(crate) fn stash_list(repo: &mut git2::Repository) -> Vec<StashRecord> {
    let mut v = Vec::new();
    let _ = repo.stash_foreach(|index, name, oid| {
        v.push(StashRecord { index, name: name.to_owned(), oid: oid.to_string() });
        true
    });
    v
}

/// The id of the tree of the commit with a given id, in hex. A commit is
/// stored under the hash of its content, so its tree depends on its id alone.
pub uninterp spec fn commit_tree_name(commit: Seq<char>) -> Seq<char>;

/// `Repository::find_commit` by an id in hex, then `Commit::tree_id`, in hex.
#[verifier::external_body]
pub(crate) fn tree_of_commit(repo: &git2::Repository, commit: &str) -> (r: Result<String, git2::Error>)
    ensures
        r matches Ok(t) ==> t@ == commit_tree_name(commit@) && is_oid_hex(t@),
{
    Ok(repo.find_commit(git2::Oid::from_str(commit)?)?.tree_id().to_string())
}

/// The time (seconds since the epoch) of the commit with a given id, as its
/// committer wrote it; it depends on the id alone.
pub uninterp spec fn commit_time_name(commit: Seq<char>) -> i64;

/// `Repository::find_commit` by an id in hex, then `Commit::time`, in
/// seconds since the epoch.
#[verifier::external_body]
pub(crate) fn time_by_id(repo: &git2::Repository, commit: &str) -> (r: Result<i64, git2::Error>)
    ensures
        r matches Ok(t) ==> t == commit_time_name(commit@),
{
    Ok(repo.find_commit(git2::Oid::from_str(commit)?)?.time().seconds())
}

/// `Repository::find_commit` by an id in hex, then `Commit::parent_ids`, in
/// order, in hex. The parents read depend on the grafts and shallow lists of
/// the repository on disk as well as on the id, so only their form is stated.
#[verifier::external_body]
pub(crate) fn parents_by_id(repo: &git2::Repository, commit: &str) -> (r: Result<Vec<String>, git2::Error>)
    ensures
        r matches Ok(ps) ==> forall|i: int| 0 <= i < ps@.len() ==> is_oid_hex(#[trigger] ps@[i]@),
{
    Ok(repo.find_commit(git2::Oid::from_str(commit)?)?.parent_ids().map(|p| p.to_string()).collect())
}

/// The summary (first paragraph of the message) of the commit with a given
/// id, when it has one; like the parents, it depends on the id alone.
pub uninterp spec fn commit_summary_name(commit: Seq<char>) -> Option<Seq<char>>;

/// `Repository::find_commit` by an id in hex, then `Commit::summary`.
#[verifier::external_body]
pub(crate) fn summary_by_id(repo: &git2::Repository, commit: &str) -> (r: Result<Option<String>, git2::Error>)
    ensures
        r matches Ok(o) ==> opt_view(o) == commit_summary_name(commit@),
{
    Ok(repo.find_commit(git2::Oid::from_str(commit)?)?.summary().map(|s| s.to_owned()))
}

/// The body (the message after its summary) of the commit with a given id,
/// when it has one; it depends on the id alone.
pub uninterp spec fn commit_body_name(commit: Seq<char>) -> Option<Seq<char>>;

/// `Repository::find_commit` by an id in hex, then `Commit::body`.
#[verifier::external_body]
pub(crate) fn body_by_id(repo: &git2::Repository, commit: &str) -> (r: Result<Option<String>, git2::Error>)
    ensures
        r matches Ok(o) ==> opt_view(o) == commit_body_name(commit@),
{
    Ok(repo.find_commit(git2::Oid::from_str(commit)?)?.body().map(|s| s.to_owned()))
}

/// The author's name, email and time (seconds since the epoch) of the commit
/// with a given id; they depend on the id alone.
pub uninterp spec fn commit_author_name(commit: Seq<char>) -> (Option<Seq<char>>, Option<Seq<char>>, i64);

/// `Repository::find_commit` by an id in hex, then `Commit::author`: its
/// name, email and time in seconds since the epoch.
#[verifier::external_body]
pub(crate) fn author_by_id(
    repo: &git2::Repository,
    commit: &str,
) -> (r: Result<(Option<String>, Option<String>, i64), git2::Error>)
    ensures
        r matches Ok(a) ==> (opt_view(a.0), opt_view(a.1), a.2) == commit_author_name(commit@),
{
    let c = repo.find_commit(git2::Oid::from_str(commit)?)?;
    let a = c.author();
    Ok((a.name().map(|s| s.to_owned()), a.email().map(|s| s.to_owned()), a.when().seconds()))
}

/// The view of an optional string.
pub open spec fn opt_view(o: Option<String>) -> Option<Seq<char>> {
    match o {
        Some(s) => Some(s@),
        None => None,
    }
}

/// A revision walk with a record of what it was given and what it yielded:
/// the globs pushed, whether it sorts topologically with the newest first,
/// and the ids it has yielded so far. Only `revwalk` makes one.
pub struct RefWalk<'r> {
    walk: git2::Revwalk<'r>,
    pushed: Ghost<Seq<Seq<char>>>,
    topo_time: Ghost<bool>,
    yielded: Ghost<Seq<Seq<char>>>,
}

impl<'r> View for RefWalk<'r> {
    type V = (Seq<Seq<char>>, bool, Seq<Seq<char>>);

    closed spec fn view(&self) -> (Seq<Seq<char>>, bool, Seq<Seq<char>>) {
        (self.pushed@, self.topo_time@, self.yielded@)
    }
}

/// `Repository::revwalk`: a walk given nothing yet.
#[verifier::external_body]
pub(crate) fn revwalk<'r>(repo: &'r git2::Repository) -> (r: Result<RefWalk<'r>, git2::Error>)
    ensures
        r matches Ok(w) ==> w@ == (Seq::<Seq<char>>::empty(), false, Seq::<Seq<char>>::empty()),
{
    Ok(RefWalk { walk: repo.revwalk()?, pushed: Ghost(Seq::empty()), topo_time: Ghost(false), yielded: Ghost(Seq::empty()) })
}

/// `Revwalk::push_glob`; the glob is recorded once pushed.
#[verifier::external_body]
pub(crate) fn push_glob(w: &mut RefWalk, glob: &str) -> (r: Result<(), git2::Error>)
    ensures
        r is Ok ==> final(w)@ == (old(w)@.0.push(glob@), old(w)@.1, old(w)@.2),
{
    w.walk.push_glob(glob)?;
    w.pushed = Ghost(w.pushed@.push(glob@));
    Ok(())
}

/// `Revwalk::set_sorting` with topological order, newest first among
/// unrelated commits; recorded once set.
#[verifier::external_body]
pub(crate) fn sort_topological_by_time(w: &mut RefWalk) -> (r: Result<(), git2::Error>)
    ensures
        r is Ok ==> final(w)@ == (old(w)@.0, true, old(w)@.2),
{
    w.walk.set_sorting(git2::Sort::TOPOLOGICAL | git2::Sort::TIME)?;
    w.topo_time = Ghost(true);
    Ok(())
}

/// `Revwalk::next`, the id in hex; an id yielded is recorded.
#[verifier::external_body]
pub(crate) fn next_oid(w: &mut RefWalk) -> (r: Option<Result<String, git2::Error>>)
    ensures
        r matches Some(Ok(o)) ==> final(w)@ == (old(w)@.0, old(w)@.1, old(w)@.2.push(o@)),
        !(r matches Some(Ok(_))) ==> final(w)@ == old(w)@,
{
    let r = w.walk.next().map(|x| x.map(|o| o.to_string()));
    if let Some(Ok(o)) = &r {
        w.yielded = Ghost(w.yielded@.push(o@));
    }
    r
}

/// The commit `HEAD` points at (`Repository::head`, then `Reference::target`),
/// in hex.
#[verifier::external_body]
pub(crate) fn head_target(repo: &git2::Repository) -> (r: Option<String>)
    ensures
        r matches Some(t) ==> is_oid_hex(t@),
{
    repo.head().ok().and_then(|h| h.target()).map(|o| o.to_string())
}

/// The full name of the branch `HEAD` stands for (`Repository::head`, then
/// `Reference::resolve` and `Reference::name`).
#[verifier::external_body]
pub(crate) fn head_branch_name(repo: &git2::Repository) -> Option<String> {
    repo.head().ok().and_then(|h| h.resolve().ok()).and_then(|r| r.name().map(|n| n.to_owned()))
}

/// `Repository::references`.
#[verifier::external_body]
pub(crate) fn references<'r>(repo: &'r git2::Repository) -> Result<git2::References<'r>, git2::Error> {
    repo.references()
}

/// `References::next`.
#[verifier::external_body]
pub(crate) fn next_reference<'r>(it: &mut git2::References<'r>) -> Option<Result<git2::Reference<'r>, git2::Error>> {
    it.next()
}

/// What `Reference::target`, `is_branch`, `is_remote`, `is_tag`, `name` and
/// `shorthand` return.
#[verifier::external_body]
pub(crate) fn reference_record(r: &git2::Reference) -> RefRecord {
    RefRecord {
        target: r.target().map(|o| o.to_string()),
        is_branch: r.is_branch(),
        is_remote: r.is_remote(),
        is_tag: r.is_tag(),
        name: r.name().map(|s| s.to_owned()),
        shorthand: r.shorthand().map(|s| s.to_owned()),
    }
}

/// `Reference::peel_to_commit`: the id of the commit a tag finally names.
#[verifier::external_body]
pub(crate) fn peeled_commit(r: &git2::Reference) -> Option<String> {
    r.peel_to_commit().ok().map(|c| c.id().to_string())
}

} // verus!
