use trunk_lib::git::graph::{lay_out_walk, order_walk, walk_commits, walk_fits, WalkNode};
use trunk_lib::git::types::EdgeType;

fn node(oid: &str, parents: &[&str], is_stash: bool) -> WalkNode {
    WalkNode { oid: oid.to_string(), parents: parents.iter().map(|p| p.to_string()).collect(), is_stash }
}

fn strings(v: &[&str]) -> Vec<String> {
    v.iter().map(|s| s.to_string()).collect()
}

#[test]
fn head_chain_keeps_column_zero() {
    let nodes = vec![
        node("c3", &["c2"], false),
        node("f1", &["c1"], false),
        node("c2", &["c1"], false),
        node("c1", &[], false),
    ];
    assert!(walk_fits(&nodes));
    let (placed, max_columns) =
        lay_out_walk(&nodes, &strings(&["c3", "c2", "c1"]), &Some("c3".to_string()), &strings(&["c3", "f1", "c2", "c1"]));
    assert_eq!(placed.len(), 4);
    assert_eq!(placed[0].column, 0);
    assert_eq!(placed[1].column, 1);
    assert_eq!(placed[2].column, 0);
    assert_eq!(placed[3].column, 0);
    assert_eq!(max_columns, 2);
    assert!(placed[1].is_branch_tip);
    assert!(placed[0].is_branch_tip);
    assert!(!placed[2].is_branch_tip);
    assert!(placed[3]
        .edges
        .iter()
        .any(|e| e.from_column == 0 && e.to_column == 1 && matches!(e.edge_type, EdgeType::ForkRight)));
    for p in &placed {
        assert!(p.column < max_columns);
        for e in &p.edges {
            assert!(e.from_column < max_columns && e.to_column < max_columns);
        }
    }
}

#[test]
fn merge_parent_gets_merge_edge_and_own_colour() {
    let nodes = vec![node("m", &["a", "b"], false), node("b", &["base"], false), node("a", &["base"], false), node("base", &[], false)];
    let (placed, max_columns) = lay_out_walk(&nodes, &strings(&["m", "a", "base"]), &Some("m".to_string()), &strings(&["m", "b", "a", "base"]));
    assert_eq!(placed[0].column, 0);
    assert_eq!(placed[0].color_index, 0);
    assert!(placed[0].edges.iter().any(|e| e.to_column == 1 && matches!(e.edge_type, EdgeType::MergeRight)));
    assert_eq!(placed[1].column, 1);
    assert_eq!(placed[1].color_index, 1);
    assert_eq!(max_columns, 2);
}

#[test]
fn stash_sits_inline_with_dashed_line() {
    let nodes = vec![node("s", &["h", "i"], true), node("h", &["r"], false), node("r", &[], false)];
    let (placed, _) = lay_out_walk(&nodes, &strings(&["h", "r"]), &Some("h".to_string()), &strings(&["h", "r"]));
    assert_eq!(placed[0].column, 0);
    assert!(placed[0].edges.iter().all(|e| e.dashed));
    assert_eq!(placed[0].edges.len(), 1);
}

#[test]
fn stashes_are_placed_by_time_newest_first() {
    let base = vec![("a".to_string(), 100i64), ("b".to_string(), 50), ("c".to_string(), 10)];
    let stashes = vec![("s_old".to_string(), 60i64), ("s_new".to_string(), 200), ("s_older".to_string(), 5)];
    let order = order_walk(&base, &stashes);
    assert_eq!(order, strings(&["s_new", "a", "s_old", "b", "c", "s_older"]));
}

#[test]
fn walk_commits_lays_out_a_real_repository() {
    let dir = tempfile::tempdir().unwrap();
    let repo = git2::Repository::init(dir.path()).unwrap();
    let sig = git2::Signature::now("Trunk Test", "trunk@example.test").unwrap();
    let tree_id = repo.index().unwrap().write_tree().unwrap();
    let tree = repo.find_tree(tree_id).unwrap();
    let first = repo.commit(Some("HEAD"), &sig, &sig, "first", &tree, &[]).unwrap();
    let first_commit = repo.find_commit(first).unwrap();
    let second = repo.commit(Some("HEAD"), &sig, &sig, "second\n\nbody text", &tree, &[&first_commit]).unwrap();
    drop(first_commit);
    drop(tree);
    let mut repo = repo;
    let graph = walk_commits(&mut repo, 0, usize::MAX).unwrap();
    assert_eq!(graph.commits.len(), 2);
    assert_eq!(graph.commits[0].oid, second.to_string());
    assert_eq!(graph.commits[0].summary, "second");
    assert_eq!(graph.commits[0].body.as_deref(), Some("body text"));
    assert_eq!(graph.commits[0].short_oid, second.to_string()[..7].to_string());
    assert_eq!(graph.commits[1].oid, first.to_string());
    assert_eq!(graph.commits[0].column, 0);
    assert_eq!(graph.max_columns, 1);
    assert!(graph.commits[0].is_head);
    assert!(graph.commits[0].refs.iter().any(|r| r.is_head));
    let page = walk_commits(&mut repo, 1, 5).unwrap();
    assert_eq!(page.commits.len(), 1);
    assert_eq!(page.commits[0].oid, first.to_string());
}

#[test]
fn walk_commits_keeps_head_chain_in_column_zero() {
    let dir = tempfile::tempdir().unwrap();
    let repo = git2::Repository::init(dir.path()).unwrap();
    let sig = git2::Signature::new("Trunk Test", "trunk@example.test", &git2::Time::new(100, 0)).unwrap();
    let tree_id = repo.index().unwrap().write_tree().unwrap();
    let tree = repo.find_tree(tree_id).unwrap();
    let root = repo.commit(Some("HEAD"), &sig, &sig, "root", &tree, &[]).unwrap();
    let root_commit = repo.find_commit(root).unwrap();
    let later = git2::Signature::new("Trunk Test", "trunk@example.test", &git2::Time::new(300, 0)).unwrap();
    let side = repo.commit(None, &later, &later, "side", &tree, &[&root_commit]).unwrap();
    repo.branch("side", &repo.find_commit(side).unwrap(), false).unwrap();
    let mid = git2::Signature::new("Trunk Test", "trunk@example.test", &git2::Time::new(200, 0)).unwrap();
    let main = repo.commit(Some("HEAD"), &mid, &mid, "main", &tree, &[&root_commit]).unwrap();
    drop(root_commit);
    drop(tree);
    let mut repo = repo;
    let graph = walk_commits(&mut repo, 0, usize::MAX).unwrap();
    assert_eq!(graph.commits.len(), 3);
    for c in &graph.commits {
        if c.oid == main.to_string() || c.oid == root.to_string() {
            assert_eq!(c.column, 0);
            assert_eq!(c.color_index, 0);
        } else {
            assert_eq!(c.oid, side.to_string());
            assert!(c.column >= 1);
        }
    }
}
