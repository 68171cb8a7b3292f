use trunk_lib::git::review::{
    excerpt_error_phrase, fence_language, fence_length, orphan_phrase, render_markdown, resolve_comment,
    short_sha, slice_lines, CommentLookup, ExcerptError, OrphanReason, Resolved,
};
use trunk_lib::git::types::{Anchor, Comment, ReviewSession, Side, Source};

fn anchor(path: &str, oid: &str, source: Source, start: u32, end: u32) -> Anchor {
    Anchor {
        commit_oid: oid.to_string(),
        file_path: path.to_string(),
        source,
        side: Side::New,
        start_line: start,
        end_line: end,
    }
}

fn comment(text: &str, anchor: Option<Anchor>, commit_oid: Option<&str>) -> Comment {
    Comment {
        id: "id".to_string(),
        text: text.to_string(),
        anchor,
        cached_excerpt: None,
        commit_oid: commit_oid.map(|s| s.to_string()),
    }
}

fn session(commits: Vec<&str>, comments: Vec<Comment>) -> ReviewSession {
    ReviewSession {
        schema_version: 2,
        commits: commits.into_iter().map(|s| s.to_string()).collect(),
        comments,
        draft_comment: None,
        working_tree_snapshot: None,
        index_snapshot: None,
    }
}

#[test]
fn fence_length_floor_with_no_backticks() {
    assert_eq!(fence_length("hello world\n"), 3);
}

#[test]
fn fence_length_floor_on_empty_body() {
    assert_eq!(fence_length(""), 3);
}

#[test]
fn fence_length_avoids_backtick_collision() {
    assert_eq!(fence_length("foo ``` bar"), 4);
}

#[test]
fn fence_length_handles_four_backtick_run() {
    assert_eq!(fence_length("foo ```` bar"), 5);
}

#[test]
fn fence_length_resets_across_newlines() {
    assert_eq!(fence_length("```\n```"), 4);
}

#[test]
fn fence_length_finds_longest_run_anywhere_in_body() {
    assert_eq!(fence_length("a\nbbb`````ccc\nd"), 6);
}

#[test]
fn slice_lines_takes_inclusive_range_and_normalizes_crlf() {
    assert_eq!(slice_lines("fn a() {}\nfn b() {}\nfn c() {}\n", 2, 3), Some("fn b() {}\nfn c() {}".to_string()));
    assert_eq!(slice_lines("a\r\nb\r\nc\r\n", 1, 3), Some("a\nb\nc".to_string()));
    assert_eq!(slice_lines("a\nb\n", 0, 1), None);
    assert_eq!(slice_lines("a\nb\n", 2, 1), None);
    assert_eq!(slice_lines("a\nb\n", 1, 3), None);
}

#[test]
fn fence_language_maps_known_extensions() {
    assert_eq!(fence_language("src/main.rs"), "rust");
    assert_eq!(fence_language("notes.unknownext"), "text");
}

#[test]
fn short_sha_never_exceeds_seven() {
    let s: Vec<char> = "0123456789".chars().collect();
    assert_eq!(short_sha(&s).iter().collect::<String>(), "0123456");
    let t: Vec<char> = "abc".chars().collect();
    assert_eq!(short_sha(&t).iter().collect::<String>(), "abc");
}

#[test]
fn phrases_match_documented_wording() {
    assert_eq!(orphan_phrase(OrphanReason::CommitGone), "commit no longer exists in the repository");
    assert_eq!(orphan_phrase(OrphanReason::FileGone), "file no longer exists at this commit/side");
    assert_eq!(
        orphan_phrase(OrphanReason::LineOutOfRange),
        "anchor line range is outside the current file bounds"
    );
    assert_eq!(excerpt_error_phrase(ExcerptError::NoHunks), "diff hunk no longer exists at this commit");
}

#[test]
fn render_orders_sections_and_groups_anchors() {
    let oid = "1111111111111111111111111111111111111111";
    let comments = vec![
        comment("at 30", Some(anchor("f.rs", oid, Source::FullFile, 30, 30)), None),
        comment("this commit needs review", None, Some(oid)),
        comment("at 10", Some(anchor("f.rs", oid, Source::FullFile, 10, 10)), None),
        comment("orphan comment", None, None),
        comment("diff comment", Some(anchor("g.rs", oid, Source::Diff, 1, 2)), None),
    ];
    let s = session(vec![oid], comments);
    let lookups = vec![
        CommentLookup::Excerpt(Ok("thirty".to_string())),
        CommentLookup::Commit { exists: true, summary: Some("Add feature X".to_string()) },
        CommentLookup::Excerpt(Ok("ten".to_string())),
        CommentLookup::Nothing,
        CommentLookup::Excerpt(Ok("- old\n+ new\n".to_string())),
    ];
    let resolved: Vec<Resolved> = s.comments.iter().zip(lookups.iter()).map(|(c, l)| resolve_comment(c, l)).collect();
    let md = render_markdown(&s, "trunk", &vec![Some("Add feature X".to_string())], &resolved);

    assert!(md.starts_with("# Code review: trunk\n"));
    let refs = md.find("## Commits").unwrap();
    let anchored = md.find("## Anchored Comments").unwrap();
    let commit_level = md.find("## Commit-level Comments").unwrap();
    let unresolvable = md.find("## Unresolvable Anchors").unwrap();
    assert!(refs < anchored && anchored < commit_level && commit_level < unresolvable);
    assert!(md.contains("- 1111111 -- Add feature X\n"));
    assert!(md.contains("### f.rs (1111111)\n"));
    assert!(md.contains("#### f.rs:L10-L10 (1111111)\n"));
    assert!(md.find("at 10").unwrap() < md.find("at 30").unwrap());
    assert!(md.contains("```diff\n- old\n+ new\n```\n"));
    assert!(md.contains("```rust\nten\n```\n"));
    assert!(md.contains("### 1111111 -- Add feature X\n"));
    assert!(md.contains("### Orphan note\n\ncommit no longer exists in the repository.\n"));
}

#[test]
fn render_fence_outgrows_backticks_in_excerpt() {
    let oid = "2222222222222222222222222222222222222222";
    let s = session(vec![], vec![comment("watch the backticks", Some(anchor("a.rs", oid, Source::FullFile, 1, 3)), None)]);
    let resolved = vec![resolve_comment(&s.comments[0], &CommentLookup::Excerpt(Ok("line one\nfoo ``` bar\nline three\n".to_string())))];
    let md = render_markdown(&s, "repo", &vec![], &resolved);
    assert!(md.contains("````rust\n"));
    assert!(md.contains("\n````\n"));
}

#[test]
fn render_binary_placeholder_stays_in_anchored_section() {
    let oid = "3333333333333333333333333333333333333333";
    let s = session(vec![], vec![comment("binary note", Some(anchor("bin.dat", oid, Source::FullFile, 1, 1)), None)]);
    let resolved = vec![resolve_comment(&s.comments[0], &CommentLookup::Excerpt(Err(ExcerptError::Binary)))];
    let md = render_markdown(&s, "repo", &vec![], &resolved);
    assert!(md.contains("## Anchored Comments"));
    assert!(md.contains("[binary file, no excerpt]\n"));
    assert!(!md.contains("## Unresolvable Anchors"));
}

fn section_of(r: &Resolved) -> &'static str {
    match r {
        Resolved::Anchored { .. } | Resolved::Binary => "anchored",
        Resolved::CommitLevel { .. } => "commit-level",
        Resolved::Unresolvable { .. } => "unresolvable",
    }
}

#[test]
fn each_comment_lands_in_one_section() {
    let oid = "0123456789abcdef0123456789abcdef01234567";
    let anchored = Comment {
        id: "a".to_string(),
        text: "t".to_string(),
        anchor: Some(anchor("f.rs", oid, Source::FullFile, 1, 2)),
        cached_excerpt: None,
        commit_oid: None,
    };
    let loose = Comment { id: "c".to_string(), text: "t".to_string(), anchor: None, cached_excerpt: None, commit_oid: Some(oid.to_string()) };
    let orphan = Comment { id: "o".to_string(), text: "t".to_string(), anchor: None, cached_excerpt: None, commit_oid: None };
    let r = resolve_comment(&anchored, &CommentLookup::Excerpt(Ok("x".to_string())));
    assert_eq!(section_of(&r), "anchored");
    let r = resolve_comment(&anchored, &CommentLookup::Excerpt(Err(ExcerptError::Binary)));
    assert_eq!(section_of(&r), "anchored");
    let r = resolve_comment(&anchored, &CommentLookup::Excerpt(Err(ExcerptError::NoHunks)));
    assert_eq!(section_of(&r), "unresolvable");
    let r = resolve_comment(&loose, &CommentLookup::Commit { exists: true, summary: None });
    assert_eq!(section_of(&r), "commit-level");
    let r = resolve_comment(&loose, &CommentLookup::Commit { exists: false, summary: None });
    assert_eq!(section_of(&r), "unresolvable");
    let r = resolve_comment(&orphan, &CommentLookup::Nothing);
    assert_eq!(section_of(&r), "unresolvable");
}
