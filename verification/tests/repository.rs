use std::io::Write;
use std::path::Path;

use git2::Repository;
use tempfile::TempDir;
use trunk_lib::git::repository::{any_blocking, commit_graph, is_repo_dirty, validate_and_open, CHECKOUT_BLOCKING};

fn write_file(dir: &Path, name: &str, content: &[u8]) {
    let mut f = tempfile::NamedTempFile::new_in(dir).unwrap();
    f.write_all(content).unwrap();
    f.persist(dir.join(name)).unwrap();
}

#[test]
fn untracked_files_do_not_block_checkout() {
    assert!(!any_blocking(&vec![1 << 7, 0]));
    assert!(any_blocking(&vec![1 << 7, 1 << 8]));
    assert!(any_blocking(&vec![1]));
    assert_eq!(CHECKOUT_BLOCKING & (1 << 7), 0);
}

#[test]
fn dirty_repo_detection_on_disk() {
    let dir = TempDir::new().unwrap();
    let repo = Repository::init(dir.path()).unwrap();
    write_file(dir.path(), "a.txt", b"one\n");
    {
        let mut index = repo.index().unwrap();
        index.add_path(Path::new("a.txt")).unwrap();
        index.write().unwrap();
        let tree = repo.find_tree(index.write_tree().unwrap()).unwrap();
        let sig = git2::Signature::new("T", "t@example.com", &git2::Time::new(0, 0)).unwrap();
        repo.commit(Some("HEAD"), &sig, &sig, "init", &tree, &[]).unwrap();
    }
    assert!(!is_repo_dirty(&repo).unwrap());
    write_file(dir.path(), "untracked.txt", b"x\n");
    assert!(!is_repo_dirty(&repo).unwrap());
    write_file(dir.path(), "a.txt", b"two\n");
    assert!(is_repo_dirty(&repo).unwrap());
}

#[test]
fn opening_and_unknown_ids() {
    let dir = TempDir::new().unwrap();
    let e = validate_and_open(dir.path().to_str().unwrap()).unwrap_err();
    assert_eq!(e.code, "not_a_git_repo");
    let e = commit_graph("local:/nowhere", None).unwrap_err();
    assert_eq!((e.code.as_str(), e.message.as_str()), ("not_open", "Repository not open: local:/nowhere"));
}
