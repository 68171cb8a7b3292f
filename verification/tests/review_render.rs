use git2::{Oid, Repository, Signature};
use tempfile::TempDir;
use trunk_lib::git::excerpt::{
    excerpt_from_hunks, render, slice_diff, slice_full_file, try_resolve_excerpt, PatchHunk, PatchLine,
};
use trunk_lib::git::review::{ExcerptError, OrphanReason};
use trunk_lib::git::types::{Anchor, Comment, DraftComment, ReviewSession, Side, Source};

fn sig() -> Signature<'static> {
    Signature::new("Test", "test@example.com", &git2::Time::new(0, 0)).unwrap()
}

fn commit_with_file(
    repo: &Repository,
    message: &str,
    parents: &[Oid],
    path: &str,
    content: &[u8],
) -> Oid {
    let blob_oid = repo.blob(content).unwrap();
    let mut builder = repo.treebuilder(None).unwrap();
    builder
        .insert(path, blob_oid, git2::FileMode::Blob.into())
        .unwrap();
    let tree = repo.find_tree(builder.write().unwrap()).unwrap();
    let parent_commits: Vec<_> = parents
        .iter()
        .map(|oid| repo.find_commit(*oid).unwrap())
        .collect();
    let parent_refs: Vec<&git2::Commit> = parent_commits.iter().collect();
    let s = sig();
    repo.commit(None, &s, &s, message, &tree, &parent_refs)
        .unwrap()
}

fn empty_commit(repo: &Repository, message: &str, parents: &[Oid]) -> Oid {
    let tree_oid = repo.treebuilder(None).unwrap().write().unwrap();
    let tree = repo.find_tree(tree_oid).unwrap();
    let parent_commits: Vec<_> = parents
        .iter()
        .map(|oid| repo.find_commit(*oid).unwrap())
        .collect();
    let parent_refs: Vec<&git2::Commit> = parent_commits.iter().collect();
    let s = sig();
    repo.commit(None, &s, &s, message, &tree, &parent_refs)
        .unwrap()
}

fn make_repo() -> (TempDir, Repository) {
    let dir = TempDir::new().unwrap();
    let repo = Repository::init(dir.path()).unwrap();
    (dir, repo)
}

fn anchor(
    commit_oid: Oid,
    file_path: &str,
    source: Source,
    side: Side,
    start_line: u32,
    end_line: u32,
) -> Anchor {
    Anchor {
        commit_oid: commit_oid.to_string(),
        file_path: file_path.to_string(),
        source,
        side,
        start_line,
        end_line,
    }
}

#[test]
fn slice_full_file_returns_requested_range() {
    let (_dir, repo) = make_repo();
    let b = commit_with_file(
        &repo,
        "B",
        &[],
        "foo.rs",
        b"fn a() {}\nfn b() {}\nfn c() {}\n",
    );
    let a = anchor(b, "foo.rs", Source::FullFile, Side::New, 2, 3);

    let body = slice_full_file(&repo, &a).expect("resolvable FullFile slice");

    assert_eq!(body, "fn b() {}\nfn c() {}");
}

#[test]
fn slice_full_file_normalizes_crlf() {
    let (_dir, repo) = make_repo();
    let b = commit_with_file(&repo, "B", &[], "foo.txt", b"a\r\nb\r\nc\r\n");
    let a = anchor(b, "foo.txt", Source::FullFile, Side::New, 1, 3);

    let body = slice_full_file(&repo, &a).expect("resolvable FullFile slice");

    assert_eq!(body, "a\nb\nc");
}

#[test]
fn slice_full_file_returns_binary_for_nul_byte_blob() {
    let (_dir, repo) = make_repo();
    let b = commit_with_file(&repo, "B", &[], "bin.dat", b"abc\0def\n");
    let a = anchor(b, "bin.dat", Source::FullFile, Side::New, 1, 1);

    let err = slice_full_file(&repo, &a).expect_err("binary blob must error");

    assert!(
        matches!(err, ExcerptError::Binary),
        "expected ExcerptError::Binary, got {err:?}"
    );
}

#[test]
fn slice_full_file_passes_through_non_utf8_bytes_with_lossy_substitution() {
    let (_dir, repo) = make_repo();
    let b = commit_with_file(&repo, "B", &[], "latin1.txt", b"hello \xC3 world\nsecond\n");
    let a = anchor(b, "latin1.txt", Source::FullFile, Side::New, 1, 1);

    let body = slice_full_file(&repo, &a).expect("lossy UTF-8 still resolves");

    assert!(
        body.contains('\u{FFFD}'),
        "expected lossy substitution char in body, got {body:?}"
    );
    assert!(!body.is_empty());
}

#[test]
fn slice_diff_returns_requested_range() {
    let (_dir, repo) = make_repo();
    let a = commit_with_file(&repo, "A", &[], "foo.rs", b"old\n");
    let b = commit_with_file(&repo, "B", &[a], "foo.rs", b"new\n");
    let an = anchor(b, "foo.rs", Source::Diff, Side::New, 1, 1);

    let body = slice_diff(&repo, &an).expect("resolvable Diff slice");

    assert!(
        body.contains("+new"),
        "diff body must contain the +new line, got {body:?}"
    );
    assert!(
        body.contains("-old"),
        "opposing-side `-` line must be kept, got {body:?}"
    );
}

#[test]
fn slice_diff_returns_no_hunks_when_file_unchanged() {
    let (_dir, repo) = make_repo();
    let a = commit_with_file(&repo, "A", &[], "foo.rs", b"same\n");
    let blob_a = repo.blob(b"same\n").unwrap();
    let blob_other = repo.blob(b"unrelated\n").unwrap();
    let mut builder = repo.treebuilder(None).unwrap();
    builder
        .insert("foo.rs", blob_a, git2::FileMode::Blob.into())
        .unwrap();
    builder
        .insert("other.rs", blob_other, git2::FileMode::Blob.into())
        .unwrap();
    let tree = repo.find_tree(builder.write().unwrap()).unwrap();
    let parent = repo.find_commit(a).unwrap();
    let b = repo
        .commit(None, &sig(), &sig(), "B", &tree, &[&parent])
        .unwrap();
    let an = anchor(b, "foo.rs", Source::Diff, Side::New, 1, 1);

    let err = slice_diff(&repo, &an).expect_err("unchanged file must yield NoHunks");

    assert!(
        matches!(err, ExcerptError::NoHunks),
        "expected ExcerptError::NoHunks, got {err:?}"
    );
}

#[test]
fn slice_diff_handles_root_commit() {
    let (_dir, repo) = make_repo();
    let r = commit_with_file(&repo, "R (root)", &[], "foo.rs", b"hello\n");
    let an = anchor(r, "foo.rs", Source::Diff, Side::New, 1, 1);

    let body = slice_diff(&repo, &an).expect("root-commit Side::New must resolve");

    assert!(
        body.contains("+hello"),
        "root-commit diff body must contain +hello, got {body:?}"
    );
}

#[test]
fn slice_diff_multi_hunk_isolates_opposing_side() {
    let (_dir, repo) = make_repo();

    let mut parent_body = String::new();
    for i in 1..=50 {
        parent_body.push_str(&format!("L{i}_PARENT\n"));
    }
    let mut child_body = String::new();
    for i in 1..=50 {
        if i == 5 || i == 45 {
            child_body.push_str(&format!("L{i}_CHILD\n"));
        } else {
            child_body.push_str(&format!("L{i}_PARENT\n"));
        }
    }
    let a = commit_with_file(&repo, "A", &[], "foo.rs", parent_body.as_bytes());
    let b = commit_with_file(&repo, "B", &[a], "foo.rs", child_body.as_bytes());
    let an = anchor(b, "foo.rs", Source::Diff, Side::New, 45, 45);

    let body = slice_diff(&repo, &an).expect("resolvable multi-hunk Diff slice");

    assert!(
        body.contains("L45_CHILD"),
        "anchored hunk's new-side content must be kept, got {body:?}"
    );
    assert!(
        !body.contains("L5_PARENT"),
        "opposing-side deletion from the line-5 hunk leaked into the line-45 excerpt: {body:?}"
    );
    assert!(
        !body.contains("L5_CHILD"),
        "addition from the unrelated line-5 hunk leaked into the line-45 excerpt: {body:?}"
    );
}

#[test]
fn try_resolve_excerpt_short_circuits_on_missing_commit() {
    let (_dir, repo) = make_repo();
    let _b = commit_with_file(&repo, "B", &[], "foo.rs", b"hi\n");
    let missing_oid = Oid::from_str(&"0".repeat(40)).unwrap();
    let an = anchor(missing_oid, "foo.rs", Source::FullFile, Side::New, 1, 1);

    let err = try_resolve_excerpt(&repo, &an).expect_err("missing commit must orphan");

    assert!(
        matches!(err, ExcerptError::Orphaned(OrphanReason::CommitGone)),
        "expected Orphaned(CommitGone), got {err:?}"
    );
}

fn line_comment(
    id: &str,
    text: &str,
    commit_oid: Oid,
    file_path: &str,
    source: Source,
    side: Side,
    start_line: u32,
    end_line: u32,
    cached_excerpt: Option<&str>,
) -> Comment {
    Comment {
        id: id.to_string(),
        text: text.to_string(),
        anchor: Some(anchor(
            commit_oid, file_path, source, side, start_line, end_line,
        )),
        cached_excerpt: cached_excerpt.map(|s| s.to_string()),
        commit_oid: None,
    }
}

fn orphan_line_comment(
    id: &str,
    text: &str,
    bogus_oid: &str,
    file_path: &str,
    source: Source,
    side: Side,
    start_line: u32,
    end_line: u32,
    cached_excerpt: Option<&str>,
) -> Comment {
    Comment {
        id: id.to_string(),
        text: text.to_string(),
        anchor: Some(Anchor {
            commit_oid: bogus_oid.to_string(),
            file_path: file_path.to_string(),
            source,
            side,
            start_line,
            end_line,
        }),
        cached_excerpt: cached_excerpt.map(|s| s.to_string()),
        commit_oid: None,
    }
}

fn commit_level_comment(id: &str, text: &str, commit_oid: Oid) -> Comment {
    Comment {
        id: id.to_string(),
        text: text.to_string(),
        anchor: None,
        cached_excerpt: None,
        commit_oid: Some(commit_oid.to_string()),
    }
}

fn make_session(commits: Vec<String>, comments: Vec<Comment>) -> ReviewSession {
    ReviewSession {
        schema_version: 2,
        commits,
        comments,
        draft_comment: None::<DraftComment>,
        working_tree_snapshot: None,
        index_snapshot: None,
    }
}

fn short(o: Oid) -> String {
    let s = o.to_string();
    s.chars().take(7).collect()
}

#[test]
fn render_emits_all_sections_in_d04_order() {
    let (_dir, repo) = make_repo();
    let parent = commit_with_file(&repo, "A", &[], "foo.rs", b"hello\nworld\n");
    let child = commit_with_file(
        &repo,
        "B (changes foo.rs)",
        &[parent],
        "foo.rs",
        b"hello\nMARK\n",
    );
    let bogus = "0".repeat(40);
    let session = make_session(
        vec![parent.to_string(), child.to_string()],
        vec![
            line_comment(
                "d1",
                "diff comment",
                child,
                "foo.rs",
                Source::Diff,
                Side::New,
                2,
                2,
                None,
            ),
            line_comment(
                "f1",
                "full file comment",
                child,
                "foo.rs",
                Source::FullFile,
                Side::New,
                1,
                1,
                None,
            ),
            commit_level_comment("c1", "this commit needs review", child),
            orphan_line_comment(
                "o1",
                "orphan comment",
                &bogus,
                "foo.rs",
                Source::Diff,
                Side::New,
                1,
                1,
                Some("- old\n+ new\n"),
            ),
        ],
    );

    let md = render(&session, &repo);
    let title_pos = md.find("# Code review:").expect("doc has H1 title");
    let refs_pos = md
        .find(&short(parent))
        .or_else(|| md.find(&short(child)))
        .expect("refs section contains a short SHA");
    let resolved_pos = md
        .find("foo.rs")
        .expect("resolved per-file section mentions foo.rs");
    let commit_level_pos = md
        .find("this commit needs review")
        .expect("commit-level section contains its comment text");
    let unresolvable_pos = md
        .find("orphan comment")
        .expect("unresolvable section contains the orphan text");

    assert!(title_pos < refs_pos, "title before refs: {md}");
    assert!(refs_pos < resolved_pos, "refs before resolved: {md}");
    assert!(
        resolved_pos < commit_level_pos,
        "resolved before commit-level: {md}"
    );
    assert!(
        commit_level_pos < unresolvable_pos,
        "commit-level before unresolvable: {md}"
    );
}

#[test]
fn diff_source_uses_diff_fence() {
    let (_dir, repo) = make_repo();
    let a = commit_with_file(&repo, "A", &[], "foo.rs", b"old\n");
    let b = commit_with_file(&repo, "B", &[a], "foo.rs", b"new\n");
    let session = make_session(
        vec![a.to_string(), b.to_string()],
        vec![line_comment(
            "d1",
            "look here",
            b,
            "foo.rs",
            Source::Diff,
            Side::New,
            1,
            1,
            None,
        )],
    );

    let md = render(&session, &repo);

    assert!(
        md.contains("```diff"),
        "Diff source must use ```diff info string, got: {md}"
    );
}

#[test]
fn full_file_uses_language_fence() {
    let (_dir, repo) = make_repo();
    let b = commit_with_file(&repo, "B", &[], "foo.rs", b"fn main() {}\n");
    let session = make_session(
        vec![b.to_string()],
        vec![line_comment(
            "f1",
            "this fn",
            b,
            "foo.rs",
            Source::FullFile,
            Side::New,
            1,
            1,
            None,
        )],
    );

    let md = render(&session, &repo);

    assert!(
        md.contains("```rust"),
        "FullFile on .rs must use ```rust fence, got: {md}"
    );
}

#[test]
fn render_fence_length_avoids_backtick_collision() {
    let (_dir, repo) = make_repo();
    let body3 = b"line one\nfoo ``` bar\nline three\n";
    let b3 = commit_with_file(&repo, "B3", &[], "a.rs", body3);
    let session3 = make_session(
        vec![b3.to_string()],
        vec![line_comment(
            "f1",
            "watch the backticks",
            b3,
            "a.rs",
            Source::FullFile,
            Side::New,
            1,
            3,
            None,
        )],
    );

    let md = render(&session3, &repo);

    assert!(
        md.contains("````rust"),
        "3-backtick body needs 4-backtick fence (opening ````rust), got: {md}"
    );
    let four_count = md.matches("\n````\n").count() + md.matches("\n````").count();
    assert!(
        four_count >= 1,
        "4-backtick CLOSING fence must appear; doc: {md}"
    );
}

#[test]
fn anchors_grouped_by_file_commit() {
    let (_dir, repo) = make_repo();
    let a = commit_with_file(&repo, "A", &[], "foo.rs", b"a1\na2\na3\n");
    let b = commit_with_file(&repo, "B", &[a], "foo.rs", b"b1\nb2\nb3\n");
    let bar_blob = repo.blob(b"x\n").unwrap();
    let mut tb = repo.treebuilder(None).unwrap();
    tb.insert("foo.rs", repo.blob(b"a1\na2\na3\n").unwrap(), 0o100644)
        .unwrap();
    tb.insert("bar.rs", bar_blob, 0o100644).unwrap();
    let tree = repo.find_tree(tb.write().unwrap()).unwrap();
    let a_parent = repo.find_commit(a).unwrap();
    let a_with_bar = repo
        .commit(None, &sig(), &sig(), "A2", &tree, &[&a_parent])
        .unwrap();
    let session = make_session(
        vec![a.to_string(), a_with_bar.to_string(), b.to_string()],
        vec![
            line_comment(
                "c1",
                "c1",
                a,
                "foo.rs",
                Source::FullFile,
                Side::New,
                1,
                1,
                None,
            ),
            line_comment(
                "c2",
                "c2",
                a,
                "foo.rs",
                Source::FullFile,
                Side::New,
                2,
                2,
                None,
            ),
            line_comment(
                "c3",
                "c3",
                b,
                "foo.rs",
                Source::FullFile,
                Side::New,
                1,
                1,
                None,
            ),
            line_comment(
                "c4",
                "c4",
                a_with_bar,
                "bar.rs",
                Source::FullFile,
                Side::New,
                1,
                1,
                None,
            ),
        ],
    );

    let md = render(&session, &repo);

    let pair_foo_a = format!("foo.rs ({})", short(a));
    let pair_foo_b = format!("foo.rs ({})", short(b));
    let pair_bar_a2 = format!("bar.rs ({})", short(a_with_bar));
    assert!(md.contains(&pair_foo_a), "expected `{pair_foo_a}` in {md}");
    assert!(md.contains(&pair_foo_b), "expected `{pair_foo_b}` in {md}");
    assert!(
        md.contains(&pair_bar_a2),
        "expected `{pair_bar_a2}` in {md}"
    );
}

#[test]
fn anchors_sorted_by_start_line() {
    let (_dir, repo) = make_repo();
    let mut buf = Vec::new();
    for i in 1..=40 {
        buf.extend_from_slice(format!("line {i}\n").as_bytes());
    }
    let b = commit_with_file(&repo, "B", &[], "f.rs", &buf);
    let session = make_session(
        vec![b.to_string()],
        vec![
            line_comment(
                "thirty",
                "at 30",
                b,
                "f.rs",
                Source::FullFile,
                Side::New,
                30,
                30,
                None,
            ),
            line_comment(
                "ten",
                "at 10",
                b,
                "f.rs",
                Source::FullFile,
                Side::New,
                10,
                10,
                None,
            ),
            line_comment(
                "twenty",
                "at 20",
                b,
                "f.rs",
                Source::FullFile,
                Side::New,
                20,
                20,
                None,
            ),
        ],
    );

    let md = render(&session, &repo);

    let pos_at_10 = md.find("at 10").expect("at 10 in output");
    let pos_at_20 = md.find("at 20").expect("at 20 in output");
    let pos_at_30 = md.find("at 30").expect("at 30 in output");
    assert!(pos_at_10 < pos_at_20, "10 before 20");
    assert!(pos_at_20 < pos_at_30, "20 before 30");
}

#[test]
fn anchor_heading_uses_path_lstart_lend_shortsha_shape() {
    let (_dir, repo) = make_repo();
    let mut buf = Vec::new();
    for i in 1..=20 {
        buf.extend_from_slice(format!("line {i}\n").as_bytes());
    }
    let file_blob = repo.blob(&buf).unwrap();
    let mut src_builder = repo.treebuilder(None).unwrap();
    src_builder.insert("main.rs", file_blob, 0o100644).unwrap();
    let src_tree_oid = src_builder.write().unwrap();
    let mut root_builder = repo.treebuilder(None).unwrap();
    root_builder.insert("src", src_tree_oid, 0o040000).unwrap();
    let root_tree = repo.find_tree(root_builder.write().unwrap()).unwrap();
    let b = repo
        .commit(None, &sig(), &sig(), "B", &root_tree, &[])
        .unwrap();
    let session = make_session(
        vec![b.to_string()],
        vec![line_comment(
            "x",
            "tag",
            b,
            "src/main.rs",
            Source::FullFile,
            Side::New,
            12,
            15,
            None,
        )],
    );

    let md = render(&session, &repo);

    let expected = format!("src/main.rs:L12-L15 ({})", short(b));
    assert!(
        md.contains(&expected),
        "expected anchor heading `{expected}` in {md}"
    );
}

#[test]
fn commit_refs_list_shape() {
    let (_dir, repo) = make_repo();
    let a = commit_with_file(&repo, "Add feature X", &[], "x.rs", b"x\n");
    let b = commit_with_file(&repo, "Fix bug Y", &[a], "x.rs", b"y\n");
    let session = make_session(
        vec![a.to_string(), b.to_string()],
        vec![commit_level_comment("cl", "any note", b)],
    );

    let md = render(&session, &repo);

    let a_short = short(a);
    let b_short = short(b);
    assert!(
        md.contains(&format!("- {a_short}")) || md.contains(&format!("- `{a_short}`")),
        "expected bullet for {a_short} in {md}"
    );
    assert!(
        md.contains("Add feature X"),
        "expected commit A subject in refs list: {md}"
    );
    assert!(
        md.contains(&format!("- {b_short}")) || md.contains(&format!("- `{b_short}`")),
        "expected bullet for {b_short} in {md}"
    );
    assert!(
        md.contains("Fix bug Y"),
        "expected commit B subject in refs list: {md}"
    );
}

#[test]
fn excerpt_before_comment_text_within_anchor_block() {
    let (_dir, repo) = make_repo();
    let b = commit_with_file(&repo, "B", &[], "foo.rs", b"hello\nworld\n");
    let session = make_session(
        vec![b.to_string()],
        vec![line_comment(
            "f1",
            "REVIEWER_NOTE_TOKEN",
            b,
            "foo.rs",
            Source::FullFile,
            Side::New,
            1,
            1,
            None,
        )],
    );

    let md = render(&session, &repo);

    let excerpt_pos = md.find("hello").expect("excerpt body in output");
    let comment_pos = md
        .find("REVIEWER_NOTE_TOKEN")
        .expect("comment text in output");
    assert!(
        excerpt_pos < comment_pos,
        "excerpt before comment text; got excerpt@{excerpt_pos} text@{comment_pos} in {md}"
    );
}

#[test]
fn unresolvable_uses_cached_excerpt_fenced_by_source() {
    let (_dir, repo) = make_repo();
    let _b = commit_with_file(&repo, "B", &[], "foo.rs", b"hi\n");
    let bogus = "0".repeat(40);
    let session = make_session(
        vec![],
        vec![orphan_line_comment(
            "o1",
            "this comment lost its anchor",
            &bogus,
            "foo.rs",
            Source::Diff,
            Side::New,
            1,
            1,
            Some("- old\n+ new\n"),
        )],
    );

    let md = render(&session, &repo);

    assert!(
        md.contains("```diff"),
        "unresolvable Diff orphan uses ```diff fence; got {md}"
    );
    assert!(
        md.contains("cached"),
        "cached-at-attach-time label present; got {md}"
    );
    assert!(
        md.contains("+ new"),
        "cached_excerpt body should be in the fenced block; got {md}"
    );
}

#[test]
fn unresolvable_uses_d09_phrasing() {
    let (_dir, repo) = make_repo();
    let b = commit_with_file(&repo, "B", &[], "exists.rs", b"a\nb\nc\n");
    let bogus = "0".repeat(40);
    let session = make_session(
        vec![b.to_string()],
        vec![
            orphan_line_comment(
                "commit_gone",
                "cg",
                &bogus,
                "exists.rs",
                Source::FullFile,
                Side::New,
                1,
                1,
                Some("snap"),
            ),
            line_comment(
                "file_gone",
                "fg",
                b,
                "missing.rs",
                Source::FullFile,
                Side::New,
                1,
                1,
                Some("snap"),
            ),
            line_comment(
                "line_oob",
                "lob",
                b,
                "exists.rs",
                Source::FullFile,
                Side::New,
                1,
                99,
                Some("snap"),
            ),
        ],
    );

    let md = render(&session, &repo);

    assert!(
        md.contains("commit no longer exists in the repository"),
        "expected CommitGone phrase in {md}"
    );
    assert!(
        md.contains("file no longer exists at this commit/side"),
        "expected FileGone phrase in {md}"
    );
    assert!(
        md.contains("anchor line range is outside the current file bounds"),
        "expected LineOutOfRange phrase in {md}"
    );
}

#[test]
fn binary_blob_uses_placeholder_in_resolved_section() {
    let (_dir, repo) = make_repo();
    let b = commit_with_file(&repo, "B", &[], "bin.dat", b"a\nb\nc\0d\n");
    let session = make_session(
        vec![b.to_string()],
        vec![line_comment(
            "bin",
            "binary anchor",
            b,
            "bin.dat",
            Source::FullFile,
            Side::New,
            1,
            1,
            None,
        )],
    );

    let md = render(&session, &repo);

    assert!(
        md.contains("[binary file, no excerpt]"),
        "expected binary placeholder in {md}"
    );
    let placeholder_pos = md.find("[binary file, no excerpt]").unwrap();
    if let Some(unres_pos) = md.find("Unresolvable") {
        assert!(
            placeholder_pos < unres_pos,
            "binary placeholder must live in the resolved per-file section, not unresolvable"
        );
    }
}

#[test]
fn renderer_never_panics_on_orphan() {
    let (_dir, repo) = make_repo();
    let parent = commit_with_file(&repo, "A", &[], "f.rs", b"a\nb\nc\n");
    let child = commit_with_file(&repo, "B", &[parent], "f.rs", b"a\nb\nC\n");
    let a2_blob = repo.blob(b"same\n").unwrap();
    let mut tb_a2 = repo.treebuilder(None).unwrap();
    tb_a2.insert("foo2.rs", a2_blob, 0o100644).unwrap();
    let tree_a2 = repo.find_tree(tb_a2.write().unwrap()).unwrap();
    let a2 = repo
        .commit(None, &sig(), &sig(), "A2", &tree_a2, &[])
        .unwrap();
    let mut tb_b2 = repo.treebuilder(None).unwrap();
    tb_b2.insert("foo2.rs", a2_blob, 0o100644).unwrap();
    tb_b2
        .insert("unrelated.rs", repo.blob(b"hello\n").unwrap(), 0o100644)
        .unwrap();
    let tree_b2 = repo.find_tree(tb_b2.write().unwrap()).unwrap();
    let parent_a2 = repo.find_commit(a2).unwrap();
    let b2 = repo
        .commit(None, &sig(), &sig(), "B2", &tree_b2, &[&parent_a2])
        .unwrap();
    let bin_b = commit_with_file(&repo, "BIN", &[], "img.bin", b"a\0b\n");

    let bogus = "0".repeat(40);
    let session = make_session(
        vec![
            parent.to_string(),
            child.to_string(),
            a2.to_string(),
            b2.to_string(),
            bin_b.to_string(),
        ],
        vec![
            orphan_line_comment(
                "cg",
                "TXT_CG",
                &bogus,
                "f.rs",
                Source::FullFile,
                Side::New,
                1,
                1,
                Some("cg-snap"),
            ),
            line_comment(
                "fg",
                "TXT_FG",
                child,
                "no-such-file.rs",
                Source::FullFile,
                Side::New,
                1,
                1,
                Some("fg-snap"),
            ),
            line_comment(
                "lob",
                "TXT_LOB",
                child,
                "f.rs",
                Source::FullFile,
                Side::New,
                1,
                999,
                Some("lob-snap"),
            ),
            line_comment(
                "nh",
                "TXT_NH",
                b2,
                "foo2.rs",
                Source::Diff,
                Side::New,
                1,
                1,
                Some("nh-snap"),
            ),
            line_comment(
                "bin",
                "TXT_BIN",
                bin_b,
                "img.bin",
                Source::FullFile,
                Side::New,
                1,
                1,
                None,
            ),
        ],
    );

    let md = render(&session, &repo);

    for tag in ["TXT_CG", "TXT_FG", "TXT_LOB", "TXT_NH", "TXT_BIN"] {
        assert!(md.contains(tag), "expected `{tag}` in render output: {md}");
    }
    let bin_pos = md.find("TXT_BIN").unwrap();
    let cg_pos = md.find("TXT_CG").unwrap();
    assert!(
        bin_pos < cg_pos,
        "binary comment must precede orphan section (it's in the resolved area)"
    );
}

#[test]
fn doc_starts_with_h1_and_framing() {
    let (_dir, repo) = make_repo();
    let b = commit_with_file(&repo, "B", &[], "f.rs", b"x\n");
    let session = make_session(
        vec![b.to_string()],
        vec![commit_level_comment("c1", "note", b)],
    );

    let md = render(&session, &repo);

    assert!(
        md.starts_with("# Code review:"),
        "doc must begin with H1 title, got: {md}"
    );
    let lower = md.to_lowercase();
    assert!(
        lower.contains("code review") && lower.contains("anchored"),
        "framing paragraph must explain the doc; got: {md}"
    );
}

    #[test]
fn _empty_commit_helper_is_used() {
    let (_dir, repo) = make_repo();
    let _ = empty_commit(&repo, "R", &[]);
}

fn patch_line(origin: char, old: Option<u32>, new: Option<u32>, content: &str) -> PatchLine {
    PatchLine { origin, old_lineno: old, new_lineno: new, content: content.as_bytes().to_vec() }
}

#[test]
fn excerpt_from_hunks_keeps_range_and_opposing_rows_of_overlapping_hunks() {
    let hunks = vec![
        PatchHunk {
            old_start: 1,
            old_lines: 2,
            new_start: 1,
            new_lines: 2,
            lines: vec![
                patch_line(' ', Some(1), Some(1), "keep\r\n"),
                patch_line('-', Some(2), None, "gone\n"),
                patch_line('+', None, Some(2), "came\n"),
            ],
        },
        PatchHunk {
            old_start: 40,
            old_lines: 1,
            new_start: 40,
            new_lines: 1,
            lines: vec![patch_line('-', Some(40), None, "far\n"), patch_line('+', None, Some(40), "away\n")],
        },
    ];
    let body = excerpt_from_hunks(&hunks, Side::New, 2, 2).unwrap();
    assert_eq!(body, "-gone\n+came\n");
    let body = excerpt_from_hunks(&hunks, Side::New, 1, 1).unwrap();
    assert_eq!(body, " keep\n-gone\n");
    let err = excerpt_from_hunks(&hunks, Side::New, 10, 20).unwrap_err();
    assert!(matches!(err, ExcerptError::NoHunks));
    let body = excerpt_from_hunks(&hunks, Side::Old, 40, 40).unwrap();
    assert_eq!(body, "-far\n+away\n");
}

#[test]
fn old_side_reads_the_first_parent_and_a_nul_path_is_orphaned() {
    let (_dir, repo) = make_repo();
    let a = commit_with_file(&repo, "A", &[], "f.txt", b"old one\nold two\n");
    let b = commit_with_file(&repo, "B", &[a], "f.txt", b"new one\nnew two\n");
    let old = slice_full_file(&repo, &anchor(b, "f.txt", Source::FullFile, Side::Old, 1, 1)).unwrap();
    assert_eq!(old, "old one");
    let new = slice_full_file(&repo, &anchor(b, "f.txt", Source::FullFile, Side::New, 2, 2)).unwrap();
    assert_eq!(new, "new two");
    let root_old = slice_full_file(&repo, &anchor(a, "f.txt", Source::FullFile, Side::Old, 1, 1));
    assert_eq!(root_old, Err(ExcerptError::ResolutionFailed));
    let nul = try_resolve_excerpt(&repo, &anchor(b, "f\0.txt", Source::Diff, Side::New, 1, 1));
    assert_eq!(nul, Err(ExcerptError::Orphaned(OrphanReason::FileGone)));
}

#[test]
fn diff_excerpt_is_taken_against_the_first_parent() {
    let (_dir, repo) = make_repo();
    let a = commit_with_file(&repo, "A", &[], "f.txt", b"one\ntwo\n");
    let b = commit_with_file(&repo, "B", &[a], "f.txt", b"one\nTWO\n");
    let s = slice_diff(&repo, &anchor(b, "f.txt", Source::Diff, Side::New, 2, 2)).unwrap();
    assert_eq!(s, "-two\n+TWO\n");
}
