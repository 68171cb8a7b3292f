//! Re-resolving a review comment's excerpt from the repository.
//!
//! A `FullFile` anchor reads the blob at its commit (or the commit's first
//! parent, for the old side) and slices its lines; a `Diff` anchor replays
//! the diff of that one file against the first parent and keeps the rows that
//! fall in the anchored range. What the repository holds depends on the disk:
//! the trusted items below (and those of `patch`) name only what an object id
//! determines, or what a diff was asked for, and the verified code states what
//! holds whatever else came back.
use vstd::prelude::*;

pub use crate::git::patch::{PatchHunk, PatchLine};

use crate::git::patch::{
    diff_delta_count, diff_trees_at, first_patch, read_hunks, same_hunks, same_line, same_lines,
    DiffSource, FilePatch,
};
use crate::git::repo::{
    commit_summary_name, commit_tree_name, is_oid_hex, opt_view, parents_by_id, summary_by_id,
    tree_of_commit,
};
use crate::git::review::{
    crlf_to_lf, line_slice, normalize_crlf, render_markdown, resolution_of, resolutions_fit,
    resolve_comment, review_doc, slice_lines, CommentLookup, ExcerptError, OrphanReason, Resolved,
    lookup_fits, is_anchored, is_commit_level,
};
use crate::git::types::{Anchor, Comment, ReviewSession, Side, Source, string_views};
use crate::text::{chars_of, decode_lossy, lossy_utf8, push_all, string_of};

verus! {

// ---------------------------------------------------------------------------
// Objects read by id
// ---------------------------------------------------------------------------
//
// Git stores each object under the hash of its content, so what a commit,
// tree or blob id names never changes: a commit's tree, a tree's entry at a
// path, and a blob's bytes depend on the ids alone. The names below stand for
// them; each is read only when the object can be found, which depends on the
// disk. A commit's parents are not among them (grafts and shallow lists kept
// in the repository change them), nor is a diff (attributes and config on
// disk decide what is binary): what holds of those is stated for every
// outcome.

/// The id of the object at a path in the tree with a given id, in hex. On
/// Windows `git2` turns `\` in a path into `/`, so the name is stated only
/// of paths without a backslash.
pub uninterp spec fn tree_entry_name(tree: Seq<char>, path: Seq<char>) -> Seq<char>;

/// The bytes of the blob with a given id.
pub uninterp spec fn blob_bytes(blob: Seq<char>) -> Seq<u8>;

/// git's guess that the blob with a given id is not text.
pub uninterp spec fn blob_binary(blob: Seq<char>) -> bool;

/// `Repository::find_tree` by an id in hex, `Tree::get_path`, then
/// `TreeEntry::id`, in hex. A path holding a NUL cannot be made a C string,
/// and `get_path` reports it as an error.
#[verifier::external_body]
fn entry_in_tree(repo: &git2::Repository, tree: &str, path: &str) -> (r: Result<String, git2::Error>)
    ensures
        r matches Ok(b) ==> (!path@.contains('\\') ==> b@ == tree_entry_name(tree@, path@)),
        path@.contains('\0') ==> r is Err,
{
    let t = repo.find_tree(git2::Oid::from_str(tree)?)?;
    Ok(t.get_path(std::path::Path::new(path))?.id().to_string())
}

/// `Repository::find_blob` by an id in hex, then `Blob::content`, copied out.
#[verifier::external_body]
fn blob_content_of(repo: &git2::Repository, blob: &str) -> (r: Result<Vec<u8>, git2::Error>)
    ensures
        r matches Ok(v) ==> v@ == blob_bytes(blob@),
{
    Ok(repo.find_blob(git2::Oid::from_str(blob)?)?.content().to_vec())
}

/// `Repository::find_blob` by an id in hex, then `Blob::is_binary`.
#[verifier::external_body]
fn blob_is_binary_of(repo: &git2::Repository, blob: &str) -> (r: Result<bool, git2::Error>)
    ensures
        r matches Ok(b) ==> b == blob_binary(blob@),
{
    Ok(repo.find_blob(git2::Oid::from_str(blob)?)?.is_binary())
}

// ---------------------------------------------------------------------------
// Selecting the rows of a diff excerpt
// ---------------------------------------------------------------------------

/// A line's number on the anchored side, if it has one there.
pub open spec fn side_lineno(l: PatchLine, side: Side) -> Option<u32> {
    match side {
        Side::New => l.new_lineno,
        Side::Old => l.old_lineno,
    }
}

/// First and last line a hunk covers on the anchored side.
pub open spec fn hunk_span(h: PatchHunk, side: Side) -> (int, int) {
    let (s, c) = match side {
        Side::New => (h.new_start, h.new_lines),
        Side::Old => (h.old_start, h.old_lines),
    };
    (s as int, s + if c == 0 { 0int } else { c - 1 })
}

/// Whether a hunk's span on the anchored side meets `start..=end`.
pub open spec fn hunk_overlaps(h: PatchHunk, side: Side, start: u32, end: u32) -> bool {
    hunk_span(h, side).0 <= end && hunk_span(h, side).1 >= start
}

/// A change row of the other side: a removal when the new side is anchored,
/// an addition when the old side is.
pub open spec fn opposing(side: Side, origin: char) -> bool {
    (side == Side::New && origin == '-') || (side == Side::Old && origin == '+')
}

/// A row with a number on the anchored side is kept when the number is in
/// range; a row without one is kept when its hunk meets the range and it is
/// a change of the other side.
pub open spec fn keeps_line(l: PatchLine, side: Side, start: u32, end: u32, overlaps: bool) -> bool {
    match side_lineno(l, side) {
        Some(n) => start <= n && n <= end,
        None => overlaps && opposing(side, l.origin),
    }
}

/// The marker written before a kept row.
pub open spec fn line_marker(origin: char) -> char {
    if origin == '+' || origin == '-' || origin == ' ' {
        origin
    } else {
        ' '
    }
}

/// A kept row as written: its marker and its decoded bytes.
pub open spec fn line_text(l: PatchLine) -> Seq<char> {
    seq![line_marker(l.origin)] + lossy_utf8(l.content@)
}

/// The kept rows of a hunk, in order.
pub open spec fn kept_rows(ls: Seq<PatchLine>, side: Side, start: u32, end: u32, overlaps: bool) -> Seq<char>
    decreases ls.len(),
{
    if ls.len() == 0 {
        Seq::empty()
    } else {
        kept_rows(ls.drop_last(), side, start, end, overlaps) + if keeps_line(
            ls.last(),
            side,
            start,
            end,
            overlaps,
        ) {
            line_text(ls.last())
        } else {
            Seq::empty()
        }
    }
}

/// The kept rows of every hunk, in order.
pub open spec fn hunks_body(hs: Seq<PatchHunk>, side: Side, start: u32, end: u32) -> Seq<char>
    decreases hs.len(),
{
    if hs.len() == 0 {
        Seq::empty()
    } else {
        hunks_body(hs.drop_last(), side, start, end) + kept_rows(
            hs.last().lines@,
            side,
            start,
            end,
            hunk_overlaps(hs.last(), side, start, end),
        )
    }
}

fn push_kept_rows(out: &mut Vec<char>, ls: &Vec<PatchLine>, side: Side, start: u32, end: u32, overlaps: bool)
    ensures
        final(out)@ == old(out)@ + kept_rows(ls@, side, start, end, overlaps),
{
    let ghost base = out@;
    for k in 0..ls.len()
        invariant
            out@ == base + kept_rows(ls@.subrange(0, k as int), side, start, end, overlaps),
    {
        let l = &ls[k];
        let keep = match side_lineno_of(l, side) {
            Some(n) => start <= n && n <= end,
            None => overlaps && ((side == Side::New && l.origin == '-') || (side == Side::Old
                && l.origin == '+')),
        };
        let ghost before = out@;
        if keep {
            let marker = if l.origin == '+' || l.origin == '-' || l.origin == ' ' {
                l.origin
            } else {
                ' '
            };
            out.push(marker);
            let text = decode_lossy(l.content.as_slice());
            let cs = chars_of(text.as_str());
            push_all(out, &cs);
        }
        proof {
            let s = ls@.subrange(0, k + 1);
            assert(s.drop_last() =~= ls@.subrange(0, k as int));
            assert(s.last() == ls@[k as int]);
            if keep {
                assert(out@ =~= before + line_text(ls@[k as int]));
            } else {
                assert(out@ =~= before + Seq::<char>::empty());
            }
        }
    }
    assert(ls@.subrange(0, ls@.len() as int) =~= ls@);
}

fn side_lineno_of(l: &PatchLine, side: Side) -> (r: Option<u32>)
    ensures
        r == side_lineno(*l, side),
{
    match side {
        Side::New => l.new_lineno,
        Side::Old => l.old_lineno,
    }
}

fn hunk_overlaps_of(h: &PatchHunk, side: Side, start: u32, end: u32) -> (r: bool)
    ensures
        r == hunk_overlaps(*h, side, start, end),
{
    let (s, c) = match side {
        Side::New => (h.new_start, h.new_lines),
        Side::Old => (h.old_start, h.old_lines),
    };
    let last: u64 = if c == 0 {
        s as u64
    } else {
        s as u64 + (c - 1) as u64
    };
    (s as u64) <= (end as u64) && last >= (start as u64)
}

/// The excerpt of a diff replay: the kept rows of every hunk with CRLF
/// normalised to LF, or `NoHunks` when nothing was kept.
pub fn excerpt_from_hunks(hunks: &Vec<PatchHunk>, side: Side, start_line: u32, end_line: u32) -> (r: Result<String, ExcerptError>)
    ensures
        r is Ok <==> hunks_body(hunks@, side, start_line, end_line).len() > 0,
        r matches Ok(s) ==> s@ == crlf_to_lf(hunks_body(hunks@, side, start_line, end_line)),
        r matches Err(e) ==> e == ExcerptError::NoHunks,
{
    let mut out: Vec<char> = Vec::new();
    for h in 0..hunks.len()
        invariant
            out@ == hunks_body(hunks@.subrange(0, h as int), side, start_line, end_line),
    {
        let overlaps = hunk_overlaps_of(&hunks[h], side, start_line, end_line);
        push_kept_rows(&mut out, &hunks[h].lines, side, start_line, end_line, overlaps);
        proof {
            let s = hunks@.subrange(0, h + 1);
            assert(s.drop_last() =~= hunks@.subrange(0, h as int));
            assert(s.last() == hunks@[h as int]);
        }
    }
    assert(hunks@.subrange(0, hunks@.len() as int) =~= hunks@);
    if out.len() == 0 {
        Err(ExcerptError::NoHunks)
    } else {
        let n = normalize_crlf(&out);
        Ok(string_of(&n))
    }
}


// ---------------------------------------------------------------------------
// Reading the repository
// ---------------------------------------------------------------------------

/// The commit whose tree an anchor's side reads, given the parents read for
/// the anchor's commit: the commit itself for the new side, its first parent
/// for the old side (none for a commit without parents).
pub open spec fn side_commit_of(a: Anchor, parents: Seq<Seq<char>>) -> Option<Seq<char>> {
    match a.side {
        Side::New => Some(a.commit_oid@),
        Side::Old => if parents.len() > 0 {
            Some(parents[0])
        } else {
            None
        },
    }
}

/// The commit whose tree an anchor's side reads, given the parents read for
/// the anchor's commit.
pub fn side_commit(anchor: &Anchor, parents: &Vec<String>) -> (r: Option<String>)
    ensures
        opt_view(r) == side_commit_of(*anchor, string_views(parents@)),
{
    match anchor.side {
        Side::New => Some(anchor.commit_oid.clone()),
        Side::Old => if parents.len() > 0 {
            assert(string_views(parents@)[0] == parents@[0]@);
            Some(parents[0].clone())
        } else {
            None
        },
    }
}

/// `b` is the blob at the anchor's path in the tree of the commit its side
/// reads, given the parents read for its commit (the blob's id is stated for
/// a path without a backslash).
pub open spec fn blob_from(a: Anchor, parents: Seq<Seq<char>>, b: Seq<char>) -> bool {
    &&& side_commit_of(a, parents) is Some
    &&& !a.file_path@.contains('\\') ==> b == tree_entry_name(
        commit_tree_name(side_commit_of(a, parents)->0),
        a.file_path@,
    )
}

/// `b` is the blob the anchor points at, for some parents read for its
/// commit (the anchor's side decides whether they matter).
pub open spec fn anchor_blob(a: Anchor, b: Seq<char>) -> bool {
    exists|ps: Seq<Seq<char>>| #[trigger] blob_from(a, ps, b)
}

/// The id of the blob at the anchor's path on the anchor's side, or why there
/// is none: `CommitGone` when the commit cannot be found, `FileGone` when the
/// old side is asked of a commit without parents, or the side's tree or the
/// path in it cannot be found.
fn anchored_blob(repo: &git2::Repository, anchor: &Anchor) -> (r: Result<String, OrphanReason>)
    ensures
        r matches Ok(b) ==> anchor_blob(*anchor, b@) && !anchor.file_path@.contains('\0'),
        r matches Err(e) ==> e == OrphanReason::CommitGone || e == OrphanReason::FileGone,
{
    let parents = match parents_by_id(repo, anchor.commit_oid.as_str()) {
        Ok(ps) => ps,
        Err(_) => return Err(OrphanReason::CommitGone),
    };
    let commit = match side_commit(anchor, &parents) {
        Some(c) => c,
        None => return Err(OrphanReason::FileGone),
    };
    let tree = match tree_of_commit(repo, commit.as_str()) {
        Ok(t) => t,
        Err(_) => return Err(OrphanReason::FileGone),
    };
    match entry_in_tree(repo, tree.as_str(), anchor.file_path.as_str()) {
        Ok(b) => {
            assert(blob_from(*anchor, string_views(parents@), b@));
            Ok(b)
        },
        Err(_) => Err(OrphanReason::FileGone),
    }
}

/// Whether the anchor's range lies within the lines of some file content.
pub open spec fn range_fits(bytes: Seq<u8>, a: Anchor) -> bool {
    line_slice(lossy_utf8(bytes), a.start_line, a.end_line) is Some
}

/// The anchored lines lie within the anchor's blob.
pub open spec fn blob_range_fits(a: Anchor) -> bool {
    exists|b: Seq<char>| #[trigger] anchor_blob(a, b) && range_fits(blob_bytes(b), a)
}

/// The anchor's blob is there, but its range lies outside its lines.
pub open spec fn blob_range_misses(a: Anchor) -> bool {
    exists|b: Seq<char>| #[trigger] anchor_blob(a, b) && !range_fits(blob_bytes(b), a)
}

/// The anchor's blob is there and git takes it for binary.
pub open spec fn blob_is_binary_named(a: Anchor) -> bool {
    exists|b: Seq<char>| #[trigger] anchor_blob(a, b) && blob_binary(b)
}

/// Checks that an anchor still points at something: its commit exists, its
/// file exists on its side, and its line range lies within that file.
pub fn classify_anchor(repo: &git2::Repository, anchor: &Anchor) -> (r: Result<(), OrphanReason>)
    ensures
        anchor.start_line == 0 || anchor.end_line < anchor.start_line ==> r is Err,
        r is Ok ==> blob_range_fits(*anchor),
        r is Ok ==> !anchor.file_path@.contains('\0'),
        r == Err::<(), OrphanReason>(OrphanReason::LineOutOfRange) ==> blob_range_misses(*anchor),
{
    let blob = match anchored_blob(repo, anchor) {
        Ok(b) => b,
        Err(reason) => return Err(reason),
    };
    let bytes = match blob_content_of(repo, blob.as_str()) {
        Ok(v) => v,
        Err(_) => return Err(OrphanReason::FileGone),
    };
    let content = decode_lossy(bytes.as_slice());
    match slice_lines(content.as_str(), anchor.start_line, anchor.end_line) {
        Some(_) => {
            assert(range_fits(bytes@, *anchor));
            assert(anchor_blob(*anchor, blob@));
            Ok(())
        },
        None => {
            assert(!range_fits(bytes@, *anchor));
            assert(anchor_blob(*anchor, blob@));
            Err(OrphanReason::LineOutOfRange)
        },
    }
}

/// The full-file excerpt of an anchor: its lines of its blob (not binary),
/// CRLF normalised to LF.
pub open spec fn full_file_excerpt(a: Anchor, s: Seq<char>) -> bool {
    exists|b: Seq<char>|
        #[trigger] anchor_blob(a, b) && !blob_binary(b) && line_slice(lossy_utf8(blob_bytes(b)), a.start_line, a.end_line)
            == Some(s)
}

/// Re-reads a full-file excerpt: the anchored lines of the blob on the
/// anchor's side, CRLF normalised to LF; `Binary` for a binary blob;
/// `ResolutionFailed` when anything cannot be read or the range does not fit.
pub fn slice_full_file(repo: &git2::Repository, anchor: &Anchor) -> (r: Result<String, ExcerptError>)
    ensures
        r matches Ok(s) ==> full_file_excerpt(*anchor, s@),
        r == Err::<String, ExcerptError>(ExcerptError::Binary) ==> blob_is_binary_named(*anchor),
        r matches Err(e) ==> e == ExcerptError::Binary || e == ExcerptError::ResolutionFailed,
        anchor.start_line == 0 || anchor.end_line < anchor.start_line ==> r is Err,
{
    let blob = match anchored_blob(repo, anchor) {
        Ok(b) => b,
        Err(_) => return Err(ExcerptError::ResolutionFailed),
    };
    match blob_is_binary_of(repo, blob.as_str()) {
        Ok(true) => {
            assert(anchor_blob(*anchor, blob@));
            return Err(ExcerptError::Binary);
        },
        Ok(false) => {},
        Err(_) => return Err(ExcerptError::ResolutionFailed),
    }
    let bytes = match blob_content_of(repo, blob.as_str()) {
        Ok(v) => v,
        Err(_) => return Err(ExcerptError::ResolutionFailed),
    };
    let content = decode_lossy(bytes.as_slice());
    match slice_lines(content.as_str(), anchor.start_line, anchor.end_line) {
        Some(s) => {
            assert(anchor_blob(*anchor, blob@));
            Ok(s)
        },
        None => Err(ExcerptError::ResolutionFailed),
    }
}

/// Lines that read alike keep the same rows.
proof fn lemma_same_lines_rows(xs: Seq<PatchLine>, ys: Seq<PatchLine>, side: Side, start: u32, end: u32, overlaps: bool)
    requires
        same_lines(xs, ys),
    ensures
        kept_rows(xs, side, start, end, overlaps) == kept_rows(ys, side, start, end, overlaps),
    decreases xs.len(),
{
    if xs.len() > 0 {
        assert(same_line(xs[xs.len() - 1], ys[ys.len() - 1]));
        assert(same_lines(xs.drop_last(), ys.drop_last())) by {
            assert forall|j: int| 0 <= j < xs.drop_last().len() implies same_line(
                #[trigger] xs.drop_last()[j],
                ys.drop_last()[j],
            ) by {
                assert(same_line(xs[j], ys[j]));
            }
        }
        lemma_same_lines_rows(xs.drop_last(), ys.drop_last(), side, start, end, overlaps);
    }
}

/// Hunks that read alike keep the same rows.
proof fn lemma_same_hunks_body(xs: Seq<PatchHunk>, ys: Seq<PatchHunk>, side: Side, start: u32, end: u32)
    requires
        same_hunks(xs, ys),
    ensures
        hunks_body(xs, side, start, end) == hunks_body(ys, side, start, end),
    decreases xs.len(),
{
    if xs.len() > 0 {
        let k = xs.len() - 1;
        assert(xs[k].old_start == ys[k].old_start);
        lemma_same_lines_rows(
            xs.last().lines@,
            ys.last().lines@,
            side,
            start,
            end,
            hunk_overlaps(xs.last(), side, start, end),
        );
        assert(same_hunks(xs.drop_last(), ys.drop_last())) by {
            assert forall|i: int| 0 <= i < xs.drop_last().len() implies (#[trigger] xs.drop_last()[i]).old_start
                == ys.drop_last()[i].old_start by {
                assert(xs[i].old_start == ys[i].old_start);
            }
            assert forall|i: int| 0 <= i < xs.drop_last().len() implies same_lines(
                (#[trigger] xs.drop_last()[i]).lines@,
                ys.drop_last()[i].lines@,
            ) && xs.drop_last()[i].old_lines == ys.drop_last()[i].old_lines
                && xs.drop_last()[i].new_start == ys.drop_last()[i].new_start
                && xs.drop_last()[i].new_lines == ys.drop_last()[i].new_lines by {
                assert(xs[i].old_start == ys[i].old_start);
            }
        }
        lemma_same_hunks_body(xs.drop_last(), ys.drop_last(), side, start, end);
    }
}

/// `p` is the patch of an anchor's diff and `s` its excerpt: the patch was
/// read from the diff of the anchor's file between the tree of some commit
/// (the first parent read; none for a root commit) and the tree of the
/// anchor's commit, and `s` is the kept rows of its hunks, CRLF normalised to
/// LF, when any row was kept.
pub open spec fn patch_excerpt(a: Anchor, p: (DiffSource, Seq<PatchHunk>), s: Seq<char>) -> bool {
    &&& p.0.1 == commit_tree_name(a.commit_oid@)
    &&& p.0.2 == a.file_path@
    &&& (p.0.0 matches Some(t) ==> exists|c: Seq<char>| is_oid_hex(c) && #[trigger] commit_tree_name(c) == t)
    &&& hunks_body(p.1, a.side, a.start_line, a.end_line).len() > 0
    &&& s == crlf_to_lf(hunks_body(p.1, a.side, a.start_line, a.end_line))
}

/// The diff excerpt of an anchor: the excerpt of some patch read from the
/// anchor's diff.
pub open spec fn diff_excerpt(a: Anchor, s: Seq<char>) -> bool {
    exists|p: FilePatch| #[trigger] patch_excerpt(a, p@, s)
}

/// The trees a diff excerpt is taken between, given the parents read for the
/// anchor's commit: the first parent's commit (none for a root commit) and
/// the commit itself.
pub open spec fn diff_commits_of(a: Anchor, parents: Seq<Seq<char>>) -> (Option<Seq<char>>, Seq<char>) {
    (
        if parents.len() > 0 {
            Some(parents[0])
        } else {
            None
        },
        a.commit_oid@,
    )
}

/// The commits a diff excerpt is taken between, given the parents read for
/// the anchor's commit.
pub fn diff_commits(anchor: &Anchor, parents: &Vec<String>) -> (r: (Option<String>, String))
    ensures
        (opt_view(r.0), r.1@) == diff_commits_of(*anchor, string_views(parents@)),
{
    let old = if parents.len() > 0 {
        assert(string_views(parents@)[0] == parents@[0]@);
        Some(parents[0].clone())
    } else {
        None
    };
    (old, anchor.commit_oid.clone())
}

/// Re-reads a diff excerpt: replays the diff of the anchor's file between the
/// tree of the commit's first parent (an empty tree, for a root commit) and
/// the commit's tree, and keeps the rows in the anchored range together with
/// the other side's change rows of the hunks that meet it. `NoHunks` when the
/// file did not change there or nothing was kept; `ResolutionFailed` when
/// anything cannot be read. Which commit is the first parent, and what the
/// diff holds, depend on the repository on disk; the trees and path the diff
/// is asked for, and the rows kept of the hunks read, are stated.
pub fn slice_diff(repo: &git2::Repository, anchor: &Anchor) -> (r: Result<String, ExcerptError>)
    requires
        !anchor.file_path@.contains('\0'),
    ensures
        r matches Ok(s) ==> diff_excerpt(*anchor, s@),
        r matches Err(e) ==> e == ExcerptError::NoHunks || e == ExcerptError::ResolutionFailed,
{
    let parents = match parents_by_id(repo, anchor.commit_oid.as_str()) {
        Ok(ps) => ps,
        Err(_) => return Err(ExcerptError::ResolutionFailed),
    };
    let (old_commit, new_commit) = diff_commits(anchor, &parents);
    let new_tree = match tree_of_commit(repo, new_commit.as_str()) {
        Ok(t) => t,
        Err(_) => return Err(ExcerptError::ResolutionFailed),
    };
    let diff = match old_commit {
        None => diff_trees_at(repo, None, new_tree.as_str(), anchor.file_path.as_str()),
        Some(oc) => {
            let old_tree = match tree_of_commit(repo, oc.as_str()) {
                Ok(t) => t,
                Err(_) => return Err(ExcerptError::ResolutionFailed),
            };
            proof {
                assert(string_views(parents@)[0] == parents@[0]@);
                assert(is_oid_hex(oc@) && commit_tree_name(oc@) == old_tree@);
            }
            diff_trees_at(repo, Some(old_tree.as_str()), new_tree.as_str(), anchor.file_path.as_str())
        },
    };
    let diff = match diff {
        Ok(d) => d,
        Err(_) => return Err(ExcerptError::ResolutionFailed),
    };
    if diff_delta_count(&diff) == 0 {
        return Err(ExcerptError::NoHunks);
    }
    let patch = match first_patch(&diff) {
        Ok(Some(p)) => p,
        Ok(None) => return Err(ExcerptError::NoHunks),
        Err(_) => return Err(ExcerptError::ResolutionFailed),
    };
    let hunks = match read_hunks(&patch) {
        Ok(h) => h,
        Err(_) => return Err(ExcerptError::ResolutionFailed),
    };
    let r = excerpt_from_hunks(&hunks, anchor.side, anchor.start_line, anchor.end_line);
    proof {
        lemma_same_hunks_body(hunks@, patch@.1, anchor.side, anchor.start_line, anchor.end_line);
        if r is Ok {
            assert(patch_excerpt(*anchor, patch@, r->Ok_0@));
        }
    }
    r
}

/// What holds of a re-read excerpt of an anchor, whatever the repository
/// holds: an anchor with an empty or zero-based range is orphaned; an excerpt
/// lies within its blob and is the anchored lines of that blob or the kept
/// rows of a diff; a range out of the blob's lines is reported so; `Binary`
/// only for a binary blob.
pub open spec fn excerpt_fits(a: Anchor, r: Result<String, ExcerptError>) -> bool {
    &&& (a.start_line == 0 || a.end_line < a.start_line) ==> (r matches Err(ExcerptError::Orphaned(_)))
    &&& (r matches Ok(s) ==> blob_range_fits(a) && (match a.source {
        Source::FullFile => full_file_excerpt(a, s@),
        Source::Diff => diff_excerpt(a, s@),
    }))
    &&& (r == Err::<String, ExcerptError>(ExcerptError::Orphaned(OrphanReason::LineOutOfRange))
        ==> blob_range_misses(a))
    &&& (r == Err::<String, ExcerptError>(ExcerptError::Binary) ==> a.source == Source::FullFile
        && blob_is_binary_named(a))
}

/// Checks the anchor first, then re-reads its excerpt by its source. A failed
/// check is reported as `Orphaned` without reading any excerpt.
pub fn try_resolve_excerpt(repo: &git2::Repository, anchor: &Anchor) -> (r: Result<String, ExcerptError>)
    ensures
        excerpt_fits(*anchor, r),
{
    match classify_anchor(repo, anchor) {
        Ok(()) => {},
        Err(reason) => return Err(ExcerptError::Orphaned(reason)),
    }
    match anchor.source {
        Source::FullFile => slice_full_file(repo, anchor),
        Source::Diff => slice_diff(repo, anchor),
    }
}


// ---------------------------------------------------------------------------
// Rendering a session against the repository
// ---------------------------------------------------------------------------

/// `Repository::workdir`, then `Path::file_name`: the name of the working
/// directory, when there is one and it is valid UTF-8. A name is never empty:
/// `file_name` gives the last component of the path, and `Path::components`
/// skips empty ones (repeated separators are ignored).
#[verifier::external_body]
fn workdir_name(repo: &git2::Repository) -> (r: Option<String>)
    ensures
        r matches Some(n) ==> n@.len() > 0,
{
    repo.workdir().and_then(|p| p.file_name()).and_then(|n| n.to_str()).map(String::from)
}

/// The name a review document gives its repository: the working directory's
/// name, or `repository` when there is none; never empty.
fn repo_name(repo: &git2::Repository) -> (r: String)
    ensures
        r@.len() > 0,
{
    match workdir_name(repo) {
        Some(n) => n,
        None => {
            let r = String::from_str("repository");
            proof {
                reveal_strlit("repository");
            }
            r
        },
    }
}

/// The summary of the commit with the given id, when it can be found and has
/// one.
fn commit_summary(repo: &git2::Repository, oid: &str) -> (r: Option<String>)
    ensures
        r is Some ==> opt_view(r) == commit_summary_name(oid@),
{
    match summary_by_id(repo, oid) {
        Ok(summary) => summary,
        Err(_) => None,
    }
}

/// The summary of each listed commit, in order: the commit's summary when it
/// is found and has one.
pub fn commit_subjects(repo: &git2::Repository, oids: &Vec<String>) -> (r: Vec<Option<String>>)
    ensures
        r@.len() == oids@.len(),
        forall|i: int|
            0 <= i < r@.len() && (#[trigger] r@[i]) is Some ==> opt_view(r@[i]) == commit_summary_name(
                oids@[i]@,
            ),
{
    let mut out: Vec<Option<String>> = Vec::new();
    for i in 0..oids.len()
        invariant
            out@.len() == i,
            forall|j: int|
                0 <= j < i && (#[trigger] out@[j]) is Some ==> opt_view(out@[j]) == commit_summary_name(
                    oids@[j]@,
                ),
    {
        out.push(commit_summary(repo, oids[i].as_str()));
    }
    out
}

/// Whether a lookup agrees with what holds of its comment whatever the
/// repository holds: an anchored comment's excerpt is what `excerpt_fits`
/// says of a re-read excerpt (so an anchor with an empty or zero-based range
/// is always orphaned), and a found commit's summary is that commit's.
pub open spec fn lookup_sound(c: Comment, l: CommentLookup) -> bool {
    &&& lookup_fits(c, l)
    &&& (c.anchor matches Some(a) && (a.start_line == 0 || a.end_line < a.start_line)) ==> (
    l matches CommentLookup::Excerpt(Err(ExcerptError::Orphaned(_))))
    &&& c.anchor matches Some(a) ==> (l matches CommentLookup::Excerpt(r) ==> excerpt_fits(a, r))
    &&& (c.anchor is None && c.commit_oid is Some) ==> commit_lookup_fits(c.commit_oid->0, l)
}

/// A commit lookup that found the commit carries its summary; one that did
/// not carries none.
pub open spec fn commit_lookup_fits(oid: String, l: CommentLookup) -> bool {
    match l {
        CommentLookup::Commit { exists: found, summary } => (found || summary is None) && (found ==> opt_view(
            summary,
        ) == commit_summary_name(oid@)),
        _ => true,
    }
}

/// Looks up what a comment points at: the excerpt of its anchor, or whether
/// its commit exists and its summary, or nothing.
pub fn lookup_comment(repo: &git2::Repository, c: &Comment) -> (l: CommentLookup)
    ensures
        lookup_sound(*c, l),
{
    match &c.anchor {
        Some(a) => CommentLookup::Excerpt(try_resolve_excerpt(repo, a)),
        None => match &c.commit_oid {
            Some(o) => match summary_by_id(repo, o.as_str()) {
                Ok(summary) => CommentLookup::Commit { exists: true, summary },
                Err(_) => CommentLookup::Commit { exists: false, summary: None },
            },
            None => CommentLookup::Nothing,
        },
    }
}

/// `doc` is the review document of `session` for a repository named `name`,
/// given the subjects read for its commits and the lookups made for its
/// comments.
pub open spec fn rendered_from(
    session: ReviewSession,
    doc: Seq<char>,
    name: Seq<char>,
    subjects: Seq<Option<String>>,
    lookups: Seq<CommentLookup>,
    res: Seq<Resolved>,
) -> bool {
    &&& name.len() > 0
    &&& subjects.len() == session.commits@.len()
    &&& forall|i: int|
        0 <= i < subjects.len() && (#[trigger] subjects[i]) is Some ==> opt_view(subjects[i])
            == commit_summary_name(session.commits@[i]@)
    &&& lookups.len() == session.comments@.len()
    &&& res.len() == session.comments@.len()
    &&& forall|i: int|
        0 <= i < res.len() ==> lookup_sound(session.comments@[i], #[trigger] lookups[i])
            && resolution_of(session.comments@[i], lookups[i], res[i])
    &&& doc == review_doc(name, session.commits@, subjects, session.comments@, res)
}

/// Renders a review session as a markdown document, reading each comment's
/// excerpt and each commit's subject from the repository. Never fails: what
/// cannot be resolved lands in the document's last section with the reason.
pub fn render(session: &ReviewSession, repo: &git2::Repository) -> (doc: String)
    ensures
        exists|
            name: Seq<char>,
            subjects: Seq<Option<String>>,
            lookups: Seq<CommentLookup>,
            res: Seq<Resolved>,
        | #[trigger] rendered_from(*session, doc@, name, subjects, lookups, res),
{
    let name = repo_name(repo);
    let subjects = commit_subjects(repo, &session.commits);
    let mut lookups: Vec<CommentLookup> = Vec::new();
    let mut resolved: Vec<Resolved> = Vec::new();
    for i in 0..session.comments.len()
        invariant
            lookups@.len() == i,
            resolved@.len() == i,
            forall|j: int|
                0 <= j < i ==> lookup_sound(session.comments@[j], #[trigger] lookups@[j])
                    && resolution_of(session.comments@[j], lookups@[j], resolved@[j]),
    {
        let l = lookup_comment(repo, &session.comments[i]);
        let r = resolve_comment(&session.comments[i], &l);
        lookups.push(l);
        resolved.push(r);
    }
    proof {
        assert forall|i: int| 0 <= i < resolved@.len() implies (is_anchored(#[trigger] resolved@[i])
            ==> session.comments@[i].anchor is Some) && (is_commit_level(resolved@[i])
            ==> session.comments@[i].commit_oid is Some) by {
            assert(lookup_sound(session.comments@[i], lookups@[i]));
            assert(resolution_of(session.comments@[i], lookups@[i], resolved@[i]));
        }
        assert(resolutions_fit(session.comments@, resolved@));
    }
    let doc = render_markdown(session, name.as_str(), &subjects, &resolved);
    assert(rendered_from(*session, doc@, name@, subjects@, lookups@, resolved@));
    doc
}

} // verus!
