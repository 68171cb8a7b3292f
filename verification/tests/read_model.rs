use trunk_lib::git::read_model::{assign_graph_lanes, parse_porcelain_status, parse_unified_diff, porcelain_readable_of, short_oid, status_dirty_counts};
use trunk_lib::git::types::{DiffOrigin, DiffStatus, EdgeType, FileStatusType, GraphCommit};

fn graph_commit(oid: &str, parents: &[&str]) -> GraphCommit {
    GraphCommit {
        oid: oid.to_string(),
        short_oid: oid.chars().take(7).collect(),
        summary: String::new(),
        body: None,
        author_name: String::new(),
        author_email: String::new(),
        author_timestamp: 0,
        parent_oids: parents.iter().map(|parent| parent.to_string()).collect(),
        column: 0,
        color_index: 0,
        edges: Vec::new(),
        refs: Vec::new(),
        is_head: false,
        is_merge: parents.len() >= 2,
        is_branch_tip: false,
        is_stash: false,
    }
}

#[test]
fn parses_porcelain_status_into_existing_dto_buckets() {
    let status = parse_porcelain_status("M  staged.txt\0 M unstaged.txt\0?? new.txt\0UU conflict.txt\0R  old.txt\0renamed.txt\0");

    assert_eq!(status.staged.len(), 2);
    assert_eq!(status.unstaged.len(), 2);
    assert_eq!(status.conflicted.len(), 1);
    assert_eq!(status.staged[0].path, "staged.txt");
    assert!(matches!(status.staged[0].status, FileStatusType::Modified));
    assert_eq!(status.unstaged[1].path, "new.txt");
    assert!(matches!(status.unstaged[1].status, FileStatusType::New));
    assert_eq!(status.conflicted[0].path, "conflict.txt");
    assert_eq!(status.staged[1].path, "renamed.txt");
    assert!(matches!(status.staged[1].status, FileStatusType::Renamed));
}

#[test]
fn parses_unified_diff_hunks_into_file_diff_dtos() {
    let diff = "\
diff --git a/src/main.rs b/src/main.rs
index 1111111..2222222 100644
--- a/src/main.rs
+++ b/src/main.rs
@@ -1,2 +1,2 @@
 fn main() {
-    println!(\"old\");
+    println!(\"new\");
 }
";

    let files = parse_unified_diff(diff);

    assert_eq!(files.len(), 1);
    assert_eq!(files[0].path, "src/main.rs");
    assert!(matches!(files[0].status, DiffStatus::Modified));
    assert_eq!(files[0].hunks.len(), 1);
    assert_eq!(files[0].hunks[0].old_start, 1);
    assert_eq!(files[0].hunks[0].new_start, 1);
    assert_eq!(files[0].hunks[0].lines.len(), 4);
    assert!(matches!(files[0].hunks[0].lines[1].origin, DiffOrigin::Delete));
    assert_eq!(files[0].hunks[0].lines[1].old_lineno, Some(2));
    assert!(matches!(files[0].hunks[0].lines[2].origin, DiffOrigin::Add));
    assert_eq!(files[0].hunks[0].lines[2].new_lineno, Some(2));
}

#[test]
fn assigns_graph_edges_for_linear_history() {
    let mut commits = vec![graph_commit("bbbbbbb", &["aaaaaaa"]), graph_commit("aaaaaaa", &[])];

    let max_columns = assign_graph_lanes(&mut commits);

    assert_eq!(max_columns, 1);
    assert_eq!(commits[0].column, 0);
    assert_eq!(commits[1].column, 0);
    assert_eq!(commits[0].edges.len(), 1);
    assert!(matches!(commits[0].edges[0].edge_type, EdgeType::Straight));
}

#[test]
fn assigns_graph_edges_for_merge_history() {
    let mut commits = vec![
        graph_commit("merge01", &["main001", "topic01"]),
        graph_commit("topic01", &["base001"]),
        graph_commit("main001", &["base001"]),
        graph_commit("base001", &[]),
    ];

    let max_columns = assign_graph_lanes(&mut commits);

    assert!(max_columns >= 2);
    assert_eq!(commits[0].edges.len(), 2);
    assert!(commits[0]
        .edges
        .iter()
        .any(|edge| matches!(edge.edge_type, EdgeType::MergeRight | EdgeType::MergeLeft)));
}

#[test]
fn merge_lanes_place_second_parent_in_new_column() {
    let mut commits = vec![
        graph_commit("merge01", &["main001", "topic01"]),
        graph_commit("topic01", &["base001"]),
        graph_commit("main001", &["base001"]),
        graph_commit("base001", &[]),
    ];
    let max_columns = assign_graph_lanes(&mut commits);
    assert_eq!(max_columns, 2);
    assert_eq!(commits[0].column, 0);
    assert_eq!(commits[1].column, 1);
    assert_eq!(commits[2].column, 0);
    assert_eq!(commits[0].edges[1].to_column, 1);
    assert!(matches!(commits[0].edges[1].edge_type, EdgeType::MergeRight));
    for c in &commits {
        assert!(c.column < max_columns);
        for e in &c.edges {
            assert!(e.from_column < max_columns && e.to_column < max_columns);
        }
    }
}

#[test]
fn empty_history_still_reports_one_column() {
    let mut commits: Vec<GraphCommit> = Vec::new();
    assert_eq!(assign_graph_lanes(&mut commits), 1);
}

#[test]
fn short_oid_takes_seven_characters() {
    assert_eq!(short_oid("0123456789abcdef"), "0123456");
    assert_eq!(short_oid("abc"), "abc");
}

#[test]
fn dirty_counts_count_each_bucket() {
    let status = parse_porcelain_status("M  a\0 M b\0?? c\0UU d\0");
    assert_eq!(status_dirty_counts(status), (1, 2, 1));
}

#[test]
fn porcelain_rename_keeps_new_path() {
    let status = parse_porcelain_status("R  old.txt\0new.txt\0");
    assert_eq!(status.staged.len(), 1);
    assert_eq!(status.staged[0].path, "new.txt");
}

#[test]
fn parsed_lines_carry_the_numbers_of_their_sides() {
    let text = "diff --git a/f b/f\n--- a/f\n+++ b/f\n@@ -10,3 +20,3 @@\n ctx\n-old\n+new\n ctx2\n";
    let diffs = parse_unified_diff(text);
    for l in &diffs[0].hunks[0].lines {
        match l.origin {
            DiffOrigin::Context => assert!(l.old_lineno.is_some() && l.new_lineno.is_some()),
            DiffOrigin::Add => assert!(l.old_lineno.is_none() && l.new_lineno.is_some()),
            DiffOrigin::Delete => assert!(l.old_lineno.is_some() && l.new_lineno.is_none()),
        }
    }
    let ls = &diffs[0].hunks[0].lines;
    assert_eq!((ls[0].old_lineno, ls[0].new_lineno), (Some(10), Some(20)));
    assert_eq!((ls[1].old_lineno, ls[1].new_lineno), (Some(11), None));
    assert_eq!((ls[2].old_lineno, ls[2].new_lineno), (None, Some(21)));
    assert_eq!((ls[3].old_lineno, ls[3].new_lineno), (Some(12), Some(22)));
}

#[test]
fn every_lane_lies_within_the_reported_width() {
    let mut commits = vec![
        graph_commit("m", &["a", "b"]),
        graph_commit("b", &["c"]),
        graph_commit("x", &["a", "c"]),
        graph_commit("a", &["c"]),
        graph_commit("c", &[]),
    ];
    let max = assign_graph_lanes(&mut commits);
    for c in &commits {
        assert!(c.column < max);
    }
}

#[test]
fn porcelain_entries_are_read_by_bytes() {
    let status = parse_porcelain_status("\u{c3}M x\0");
    assert!(status.unstaged.is_empty());
    assert!(status.staged.is_empty());
    assert!(status.conflicted.is_empty());
    assert!(porcelain_readable_of("M  a\0\u{c3}M x\0"));
    assert!(!porcelain_readable_of("M\u{20ac}x\0"));
}

#[test]
fn row_edges_pass_through_then_follow_parents() {
    let mut commits = vec![
        graph_commit("m", &["a", "b"]),
        graph_commit("b", &["c"]),
        graph_commit("x", &["a", "c"]),
        graph_commit("a", &["c"]),
        graph_commit("c", &[]),
    ];
    let parent_counts: Vec<usize> = commits.iter().map(|c| c.parent_oids.len()).collect();
    let max = assign_graph_lanes(&mut commits);
    assert!(max >= 1);
    for (c, n) in commits.iter().zip(parent_counts) {
        assert_eq!(c.color_index, c.column);
        let split = c.edges.len() - n;
        for e in &c.edges[..split] {
            assert_eq!(e.from_column, e.to_column);
            assert_ne!(e.from_column, c.column);
            assert_eq!(e.edge_type, EdgeType::Straight);
        }
        for e in &c.edges[split..] {
            assert_eq!(e.from_column, c.column);
            let kind = if e.to_column == c.column {
                EdgeType::Straight
            } else if e.to_column < c.column {
                EdgeType::MergeLeft
            } else {
                EdgeType::MergeRight
            };
            assert_eq!(e.edge_type, kind);
        }
        if n > 0 {
            assert_eq!(c.edges[split].to_column, c.column);
        }
    }
    let m = &commits[0];
    assert_eq!(m.edges.len(), 2);
    assert_eq!(m.edges[1].edge_type, EdgeType::MergeRight);
}

#[test]
fn hunk_lines_count_from_the_hunk_start() {
    let text = "diff --git a/f b/f\n--- a/f\n+++ b/f\n@@ -5,4 +7,5 @@\n a\n-b\n-c\n+B\n+C\n+D\n d\n@@ -40 +42 @@\n-z\n+Z\n";
    let diffs = parse_unified_diff(text);
    assert_eq!(diffs.len(), 1);
    let h0 = &diffs[0].hunks[0].lines;
    let got: Vec<(Option<u32>, Option<u32>)> = h0.iter().map(|l| (l.old_lineno, l.new_lineno)).collect();
    assert_eq!(
        got,
        vec![
            (Some(5), Some(7)),
            (Some(6), None),
            (Some(7), None),
            (None, Some(8)),
            (None, Some(9)),
            (None, Some(10)),
            (Some(8), Some(11)),
        ]
    );
    let h1 = &diffs[0].hunks[1].lines;
    assert_eq!((h1[0].old_lineno, h1[0].new_lineno), (Some(40), None));
    assert_eq!((h1[1].old_lineno, h1[1].new_lineno), (None, Some(42)));
}

#[test]
fn one_file_per_diff_header() {
    let text = "preamble\ndiff --git a/a b/a\n@@ -1 +1 @@\n-x\n+y\ndiff --git a/b b/b\nBinary files a/b and b/b differ\ndiff --git a/c b/c\nnew file mode 100644\n";
    let diffs = parse_unified_diff(text);
    assert_eq!(diffs.len(), 3);
    assert!(!diffs[0].is_binary);
    assert!(diffs[1].is_binary);
    assert_eq!(diffs[2].status, DiffStatus::Added);
}

#[test]
fn status_rows_are_never_binary() {
    let status = parse_porcelain_status("MM both.txt\0?? new.txt\0AA both-added.txt\0D  gone.txt\0");
    for f in status.staged.iter().chain(status.unstaged.iter()).chain(status.conflicted.iter()) {
        assert!(!f.is_binary);
    }
    assert_eq!(status.conflicted.len(), 1);
    assert_eq!(status.conflicted[0].status, FileStatusType::Conflicted);
}
