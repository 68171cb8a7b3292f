use trunk_lib::git::types::{DiffHunk, DiffLine, DiffOrigin, DiffStatus, FileDiff};
use trunk_lib::git::wsl::staging::{build_partial_patch_from_diff, select_hunk_patch};

fn diff_line(origin: DiffOrigin, content: &str) -> DiffLine {
    DiffLine { origin, content: format!("{content}\n"), old_lineno: None, new_lineno: None, spans: Vec::new() }
}

#[test]
fn select_hunk_patch_keeps_headers_and_only_target_hunk() {
    let raw = "\
diff --git a/file.txt b/file.txt
--- a/file.txt
+++ b/file.txt
@@ -1,1 +1,1 @@
-old
+new
@@ -10,1 +10,1 @@
-older
+newer
";

    let patch = select_hunk_patch(raw, 1, "file.txt", "hunk_apply_failed").unwrap();

    assert!(patch.contains("diff --git a/file.txt b/file.txt"));
    assert!(!patch.contains("-old\n"));
    assert!(patch.contains("-older\n"));
    assert!(patch.contains("+newer\n"));
}

#[test]
fn partial_wsl_line_patch_preserves_unselected_delete_as_context() {
    let file_diff = FileDiff { path: "file.txt".to_string(), status: DiffStatus::Modified, is_binary: false, hunks: Vec::new() };
    let hunk = DiffHunk {
        header: "@@ -1,2 +1,2 @@\n".to_string(),
        old_start: 1,
        old_lines: 2,
        new_start: 1,
        new_lines: 2,
        lines: vec![diff_line(DiffOrigin::Delete, "keep old"), diff_line(DiffOrigin::Add, "stage new")],
    };

    let patch = build_partial_patch_from_diff("file.txt", &file_diff, &hunk, &[1], false);

    assert!(patch.contains("--- a/file.txt"));
    assert!(patch.contains("+++ b/file.txt"));
    assert!(patch.contains(" keep old\n"));
    assert!(patch.contains("+stage new\n"));
    assert!(!patch.contains("-keep old\n"));
}

#[test]
fn select_hunk_patch_reports_each_error() {
    let e = select_hunk_patch("  \n", 0, "a.txt", "x").unwrap_err();
    assert_eq!(e.code, "file_not_found");
    assert_eq!(e.message, "No changes for: a.txt");
    let raw = "diff --git a/a b/a\n@@ -1 +1 @@\n-a\n+b\n";
    let e = select_hunk_patch(raw, 3, "a", "x").unwrap_err();
    assert_eq!(e.code, "stale_hunk_index");
    assert_eq!(e.message, "Hunk index 3 out of range (file has 1 hunks)");
    let e = select_hunk_patch("@@ -1 +1 @@\n-a\n+b\n", 0, "a", "empty_header").unwrap_err();
    assert_eq!(e.code, "empty_header");
    assert_eq!(e.message, "Patch header not found");
    let p = select_hunk_patch(raw, 0, "a", "x").unwrap();
    assert_eq!(p, raw);
}

#[test]
fn partial_patch_exact_text_forward_and_reverse() {
    let file_diff = FileDiff { path: "f".to_string(), status: DiffStatus::Modified, is_binary: false, hunks: Vec::new() };
    let hunk = DiffHunk {
        header: String::new(),
        old_start: 3,
        old_lines: 2,
        new_start: 4,
        new_lines: 2,
        lines: vec![
            diff_line(DiffOrigin::Context, "ctx"),
            diff_line(DiffOrigin::Delete, "gone"),
            diff_line(DiffOrigin::Add, "added"),
        ],
    };
    let fwd = build_partial_patch_from_diff("f", &file_diff, &hunk, &[2], false);
    assert_eq!(fwd, "diff --git a/f b/f\n--- a/f\n+++ b/f\n@@ -3,2 +4,3 @@\n ctx\n gone\n+added\n");
    let rev = build_partial_patch_from_diff("f", &file_diff, &hunk, &[1], true);
    assert_eq!(rev, "diff --git a/f b/f\n--- a/f\n+++ b/f\n@@ -4,2 +3,3 @@\n ctx\n+gone\n added\n");
}

#[test]
fn partial_patch_uses_dev_null_for_new_files() {
    let file_diff = FileDiff { path: "n".to_string(), status: DiffStatus::Untracked, is_binary: false, hunks: Vec::new() };
    let hunk = DiffHunk {
        header: String::new(),
        old_start: 0,
        old_lines: 0,
        new_start: 1,
        new_lines: 1,
        lines: vec![diff_line(DiffOrigin::Add, "x")],
    };
    let fwd = build_partial_patch_from_diff("n", &file_diff, &hunk, &[0], false);
    assert!(fwd.contains("--- /dev/null\n+++ b/n\n"));
    let rev = build_partial_patch_from_diff("n", &file_diff, &hunk, &[0], true);
    assert!(rev.contains("--- a/n\n+++ /dev/null\n"));
}

#[test]
fn partial_patch_with_nothing_chosen_changes_nothing() {
    let file_diff = FileDiff { path: "f".to_string(), status: DiffStatus::Modified, is_binary: false, hunks: Vec::new() };
    let hunk = DiffHunk {
        header: String::new(),
        old_start: 3,
        old_lines: 2,
        new_start: 4,
        new_lines: 2,
        lines: vec![
            diff_line(DiffOrigin::Context, "ctx"),
            diff_line(DiffOrigin::Delete, "gone"),
            diff_line(DiffOrigin::Add, "added"),
        ],
    };
    let fwd = build_partial_patch_from_diff("f", &file_diff, &hunk, &[], false);
    assert!(fwd.ends_with("@@ -3,2 +4,2 @@\n ctx\n gone\n"));
    let rev = build_partial_patch_from_diff("f", &file_diff, &hunk, &[], true);
    assert!(rev.ends_with("@@ -4,2 +3,2 @@\n ctx\n added\n"));
}
