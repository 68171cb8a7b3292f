use std::io::Write;
use std::path::Path;

use git2::{Oid, Repository};
use tempfile::TempDir;
use trunk_lib::git::workdir_snapshot::{
    clear_snapshot_refs, commit_snapshot, decide_against, decide_snapshot, keep_snapshot_ref,
    snapshot_message, snapshot_parents, snapshot_working_tree, workdir_tree_oid, SNAPSHOT_AUTHOR,
    SNAPSHOT_EMAIL, SNAPSHOT_REF_PREFIX,
};

fn sig() -> git2::Signature<'static> {
    git2::Signature::new("Test", "test@example.com", &git2::Time::new(0, 0)).unwrap()
}

fn write_file(dir: &Path, name: &str, content: &[u8]) {
    let mut f = tempfile::NamedTempFile::new_in(dir).unwrap();
    f.write_all(content).unwrap();
    f.persist(dir.join(name)).unwrap();
}

fn repo_with_initial_commit() -> (TempDir, Repository) {
    let dir = TempDir::new().unwrap();
    let repo = Repository::init(dir.path()).unwrap();
    write_file(dir.path(), "committed.txt", b"original\n");
    {
        let mut index = repo.index().unwrap();
        index.add_path(Path::new("committed.txt")).unwrap();
        index.write().unwrap();
        let tree = repo.find_tree(index.write_tree().unwrap()).unwrap();
        let s = sig();
        repo.commit(Some("HEAD"), &s, &s, "initial", &tree, &[]).unwrap();
    }
    (dir, repo)
}

fn tree_contains(repo: &Repository, oid: &str, path: &str) -> bool {
    let commit = repo.find_commit(Oid::from_str(oid).unwrap()).unwrap();
    let tree = commit.tree().unwrap();
    tree.get_path(Path::new(path)).is_ok()
}

#[test]
fn untracked_file_is_included_in_snapshot() {
    let (dir, repo) = repo_with_initial_commit();
    write_file(dir.path(), "new.txt", b"uncommitted\n");
    let oid = snapshot_working_tree(&repo).unwrap();
    assert!(tree_contains(&repo, &oid, "new.txt"));
}

#[test]
fn keepalive_ref_pins_snapshot_then_clears() {
    let (dir, repo) = repo_with_initial_commit();
    write_file(dir.path(), "new.txt", b"uncommitted\n");
    let oid = snapshot_working_tree(&repo).unwrap();

    keep_snapshot_ref(&repo, &oid).unwrap();
    let name = format!("{SNAPSHOT_REF_PREFIX}{oid}");
    assert_eq!(repo.find_reference(&name).unwrap().target().unwrap().to_string(), oid);

    keep_snapshot_ref(&repo, &oid).unwrap();

    clear_snapshot_refs(&repo).unwrap();
    assert!(repo.find_reference(&name).is_err());
}

#[test]
fn ignored_file_is_excluded_from_snapshot() {
    let (dir, repo) = repo_with_initial_commit();
    write_file(dir.path(), ".gitignore", b"secret.txt\n");
    write_file(dir.path(), "secret.txt", b"do not capture\n");
    let oid = snapshot_working_tree(&repo).unwrap();
    assert!(!tree_contains(&repo, &oid, "secret.txt"));
    assert!(tree_contains(&repo, &oid, ".gitignore"));
}

#[test]
fn workdir_tree_oid_is_stable_and_matches_snapshot_tree() {
    let (dir, repo) = repo_with_initial_commit();
    write_file(dir.path(), "new.txt", b"uncommitted\n");
    let first = workdir_tree_oid(&repo).unwrap();
    let second = workdir_tree_oid(&repo).unwrap();
    assert_eq!(first, second);
    let snap = snapshot_working_tree(&repo).unwrap();
    let snap_tree = repo.find_commit(Oid::from_str(&snap).unwrap()).unwrap().tree_id().to_string();
    assert_eq!(first, snap_tree);
}

#[test]
fn decide_snapshot_reuses_unchanged_workdir() {
    let (dir, repo) = repo_with_initial_commit();
    write_file(dir.path(), "new.txt", b"uncommitted\n");
    let prior = snapshot_working_tree(&repo).unwrap();
    let (oid, created) = decide_snapshot(&repo, Some(&prior)).unwrap();
    assert!(!created);
    assert_eq!(oid, prior);
}

#[test]
fn decide_snapshot_creates_on_changed_workdir() {
    let (dir, repo) = repo_with_initial_commit();
    write_file(dir.path(), "new.txt", b"uncommitted\n");
    let prior = snapshot_working_tree(&repo).unwrap();
    write_file(dir.path(), "new.txt", b"changed contents\n");
    let (oid, created) = decide_snapshot(&repo, Some(&prior)).unwrap();
    assert!(created);
    assert_ne!(oid, prior);
}

#[test]
fn decide_snapshot_creates_first_snapshot() {
    let (dir, repo) = repo_with_initial_commit();
    write_file(dir.path(), "new.txt", b"uncommitted\n");
    let (oid, created) = decide_snapshot(&repo, None).unwrap();
    assert!(created);
    assert!(tree_contains(&repo, &oid, "new.txt"));
}

#[test]
fn unborn_head_snapshots_without_parent() {
    let dir = TempDir::new().unwrap();
    let repo = Repository::init(dir.path()).unwrap();
    write_file(dir.path(), "first.txt", b"hello\n");
    let oid = snapshot_working_tree(&repo).unwrap();
    let commit = repo.find_commit(Oid::from_str(&oid).unwrap()).unwrap();
    assert_eq!(commit.parent_count(), 0);
    assert!(tree_contains(&repo, &oid, "first.txt"));
}

#[test]
fn snapshot_message_carries_the_time() {
    assert_eq!(snapshot_message(1700000000), "Uncommitted changes — 1700000000");
    assert_eq!(snapshot_message(-5), "Uncommitted changes — -5");
}

fn is_lower_hex_id(s: &str) -> bool {
    s.len() == 40 && s.chars().all(|c| c.is_ascii_digit() || ('a'..='f').contains(&c))
}

#[test]
fn snapshot_and_tree_ids_are_full_lowercase_hex() {
    let (dir, repo) = repo_with_initial_commit();
    write_file(dir.path(), "new.txt", b"uncommitted\n");
    let tree = workdir_tree_oid(&repo).unwrap();
    assert!(is_lower_hex_id(&tree));
    let oid = snapshot_working_tree(&repo).unwrap();
    assert!(is_lower_hex_id(&oid));
    let (made, created) = decide_snapshot(&repo, None).unwrap();
    assert!(created);
    assert!(is_lower_hex_id(&made));
}

#[test]
fn snapshot_parent_is_head_and_signature_is_fixed() {
    let (dir, repo) = repo_with_initial_commit();
    write_file(dir.path(), "new.txt", b"uncommitted\n");
    let head = repo.head().unwrap().peel_to_commit().unwrap().id().to_string();
    let oid = snapshot_working_tree(&repo).unwrap();
    let c = repo.find_commit(Oid::from_str(&oid).unwrap()).unwrap();
    let parents: Vec<String> = c.parent_ids().map(|p| p.to_string()).collect();
    assert_eq!(parents, vec![head]);
    assert_eq!(c.author().name(), Some("Trunk"));
    assert_eq!(c.author().email(), Some("review@trunk.local"));
    assert_eq!(c.committer().name(), Some("Trunk"));
    let secs = c.time().seconds();
    assert_eq!(c.message(), Some(snapshot_message(secs).as_str()));
    assert_eq!(c.tree_id().to_string(), workdir_tree_oid(&repo).unwrap());
}

#[test]
fn snapshot_parents_follow_head() {
    let h = "0123456789abcdef0123456789abcdef01234567".to_string();
    assert_eq!(snapshot_parents(false, Some(h.clone())), vec![h.clone()]);
    assert!(snapshot_parents(true, Some(h)).is_empty());
    assert!(snapshot_parents(true, None).is_empty());
    assert!(snapshot_parents(false, None).is_empty());
}

#[test]
fn commit_snapshot_is_content_addressed() {
    let (_dir, repo) = repo_with_initial_commit();
    let tree = workdir_tree_oid(&repo).unwrap();
    let head = repo.head().unwrap().peel_to_commit().unwrap().id().to_string();
    let a = commit_snapshot(&repo, &tree, false, Some(head.clone()), 1_700_000_000, 60).unwrap();
    let b = commit_snapshot(&repo, &tree, false, Some(head.clone()), 1_700_000_000, 60).unwrap();
    assert_eq!(a, b);
    let c = repo.find_commit(Oid::from_str(&a).unwrap()).unwrap();
    assert_eq!(c.parent_ids().map(|p| p.to_string()).collect::<Vec<_>>(), vec![head.clone()]);
    assert_eq!(c.message(), Some("Uncommitted changes — 1700000000"));
    assert_eq!(c.author().name(), Some(SNAPSHOT_AUTHOR));
    assert_eq!(c.author().email(), Some(SNAPSHOT_EMAIL));
    assert_eq!(c.time().offset_minutes(), 60);
    let orphan = commit_snapshot(&repo, &tree, true, Some(head), 1_700_000_000, 60).unwrap();
    assert_ne!(orphan, a);
    assert_eq!(repo.find_commit(Oid::from_str(&orphan).unwrap()).unwrap().parent_count(), 0);
}

#[test]
fn decide_against_compares_prior_tree_with_given_tree() {
    let (dir, repo) = repo_with_initial_commit();
    let prior = snapshot_working_tree(&repo).unwrap();
    let prior_tree = repo.find_commit(Oid::from_str(&prior).unwrap()).unwrap().tree_id().to_string();
    let (same, created) = decide_against(&repo, Some(&prior), &prior_tree).unwrap();
    assert_eq!(same, prior);
    assert!(!created);
    write_file(dir.path(), "other.txt", b"more\n");
    let current = workdir_tree_oid(&repo).unwrap();
    let (fresh, created) = decide_against(&repo, Some(&prior), &current).unwrap();
    assert!(created);
    assert_ne!(fresh, prior);
    let fresh_tree = repo.find_commit(Oid::from_str(&fresh).unwrap()).unwrap().tree_id().to_string();
    assert_eq!(fresh_tree, current);
    let (first, created) = decide_against(&repo, None, &current).unwrap();
    assert!(created);
    assert!(tree_contains(&repo, &first, "other.txt"));
}
