//! Diffs of two trees and the patches read from them, through `git2`.
//!
//! Every function here but `read_hunks` is trusted: its body calls `git2`,
//! and `read_hunks` reads a patch through them. What a diff holds
//! depends on the attributes and config on disk as well as on the trees, so
//! nothing is promised of it but what it was made from: a `TreeDiff` records
//! the trees and the path it was asked for, and a `FilePatch` the diff it was
//! read from. A patch, once made, holds fixed hunks and lines in memory; the
//! functions that read them agree with one name for what it holds.
use vstd::prelude::*;

verus! {

#[verifier::external_type_specification]
#[verifier::external_body]
pub struct ExDiff<'r>(git2::Diff<'r>);

#[verifier::external_type_specification]
#[verifier::external_body]
pub struct ExPatch<'r>(git2::Patch<'r>);

/// One line of a patch hunk as git reports it: its origin marker (`+`, `-`,
/// ` ` or another marker), its line numbers on each side, and its bytes.
#[derive(Debug)]
pub struct PatchLine {
    pub origin: char,
    pub old_lineno: Option<u32>,
    pub new_lineno: Option<u32>,
    pub content: Vec<u8>,
}

/// One hunk of a patch: where it starts and how many lines it spans on each
/// side, and its lines.
#[derive(Debug)]
pub struct PatchHunk {
    pub old_start: u32,
    pub old_lines: u32,
    pub new_start: u32,
    pub new_lines: u32,
    pub lines: Vec<PatchLine>,
}

/// What a diff is made from: the old tree's id in hex (none for an empty
/// tree), the new tree's id in hex, and the one path it is restricted to.
pub type DiffSource = (Option<Seq<char>>, Seq<char>, Seq<char>);

/// A diff of two trees restricted to one path, with a record of what it was
/// made from. Only `diff_trees_at` makes one.
pub struct TreeDiff<'r> {
    diff: git2::Diff<'r>,
    made_from: Ghost<DiffSource>,
}

impl<'r> View for TreeDiff<'r> {
    type V = DiffSource;

    closed spec fn view(&self) -> DiffSource {
        self.made_from@
    }
}

/// The hunks a patch holds, in order, each with its lines in order.
pub uninterp spec fn patch_hunks_name(p: git2::Patch) -> Seq<PatchHunk>;

/// The text patch of one file of a diff, with a record of the diff it was
/// read from. Only `first_patch` makes one.
pub struct FilePatch<'r> {
    patch: git2::Patch<'r>,
    read_from: Ghost<DiffSource>,
}

impl<'r> View for FilePatch<'r> {
    type V = (DiffSource, Seq<PatchHunk>);

    closed spec fn view(&self) -> (DiffSource, Seq<PatchHunk>) {
        (self.read_from@, patch_hunks_name(self.patch))
    }
}

/// The view of an optional text.
pub open spec fn opt_text(o: Option<&str>) -> Option<Seq<char>> {
    match o {
        Some(s) => Some(s@),
        None => None,
    }
}

/// `Repository::find_tree` for each id in hex, then
/// `Repository::diff_tree_to_tree` from `old` (an empty tree when there is
/// none) to `new`, restricted by `DiffOptions::pathspec` to one path; the
/// trees and path are recorded. `pathspec` unwraps the path made a C string,
/// so a path holding a NUL is left out. What the diff holds depends on the
/// attributes and config on disk, so nothing more is promised of it.
#[verifier::external_body]
pub(crate) fn diff_trees_at<'r>(
    repo: &'r git2::Repository,
    old: Option<&str>,
    new: &str,
    path: &str,
) -> (r: Result<TreeDiff<'r>, git2::Error>)
    requires
        !path@.contains('\0'),
    ensures
        r matches Ok(d) ==> d@ == (opt_text(old), new@, path@),
{
    let old_tree = old.map(|o| git2::Oid::from_str(o).and_then(|i| repo.find_tree(i))).transpose()?;
    let new_tree = repo.find_tree(git2::Oid::from_str(new)?)?;
    let mut opts = git2::DiffOptions::new();
    opts.pathspec(path);
    let diff = repo.diff_tree_to_tree(old_tree.as_ref(), Some(&new_tree), Some(&mut opts))?;
    Ok(TreeDiff { diff, made_from: Ghost((opt_text(old), new@, path@)) })
}

/// `Diff::deltas`, counted.
#[verifier::external_body]
pub(crate) fn diff_delta_count(d: &TreeDiff) -> usize {
    d.diff.deltas().len()
}

/// `Patch::from_diff` for the first delta of a diff; `None` when that file
/// has no text patch. The diff it was read from is recorded.
#[verifier::external_body]
pub(crate) fn first_patch<'r>(d: &TreeDiff<'r>) -> (r: Result<Option<FilePatch<'r>>, git2::Error>)
    ensures
        r matches Ok(Some(p)) ==> p@.0 == d@,
{
    Ok(git2::Patch::from_diff(&d.diff, 0)?.map(|patch| FilePatch { patch, read_from: Ghost(d@) }))
}

/// `Patch::num_hunks`: how many hunks the patch holds.
#[verifier::external_body]
fn patch_num_hunks(p: &FilePatch) -> (r: usize)
    ensures
        r == patch_hunks_name(p.patch).len(),
{
    p.patch.num_hunks()
}

/// `Patch::hunk`: the old start, old line count, new start and new line count
/// of the hunk at an index; an error past the last hunk.
#[verifier::external_body]
fn patch_hunk_range(p: &FilePatch, h: usize) -> (r: Result<(u32, u32, u32, u32), git2::Error>)
    ensures
        r matches Ok(x) ==> h < patch_hunks_name(p.patch).len() && x == (
            patch_hunks_name(p.patch)[h as int].old_start,
            patch_hunks_name(p.patch)[h as int].old_lines,
            patch_hunks_name(p.patch)[h as int].new_start,
            patch_hunks_name(p.patch)[h as int].new_lines,
        ),
{
    p.patch.hunk(h).map(|(x, _)| (x.old_start(), x.old_lines(), x.new_start(), x.new_lines()))
}

/// `Patch::num_lines_in_hunk`: how many lines the hunk at an index holds; an
/// error past the last hunk.
#[verifier::external_body]
fn patch_hunk_len(p: &FilePatch, h: usize) -> (r: Result<usize, git2::Error>)
    ensures
        r matches Ok(m) ==> h < patch_hunks_name(p.patch).len() && m == patch_hunks_name(
            p.patch,
        )[h as int].lines@.len(),
{
    p.patch.num_lines_in_hunk(h)
}

/// `Patch::line_in_hunk`, as a plain record: the line at an index of the hunk
/// at an index; an error past either end.
#[verifier::external_body]
fn patch_line(p: &FilePatch, h: usize, l: usize) -> (r: Result<PatchLine, git2::Error>)
    ensures
        r matches Ok(x) ==> h < patch_hunks_name(p.patch).len() && l < patch_hunks_name(
            p.patch,
        )[h as int].lines@.len() && x.origin == patch_hunks_name(p.patch)[h as int].lines@[l as int].origin
            && x.old_lineno == patch_hunks_name(p.patch)[h as int].lines@[l as int].old_lineno
            && x.new_lineno == patch_hunks_name(p.patch)[h as int].lines@[l as int].new_lineno
            && x.content@ == patch_hunks_name(p.patch)[h as int].lines@[l as int].content@,
{
    p.patch.line_in_hunk(h, l).map(
        |x| PatchLine {
            origin: x.origin(),
            old_lineno: x.old_lineno(),
            new_lineno: x.new_lineno(),
            content: x.content().to_vec(),
        },
    )
}

/// Two lines that read alike: the same marker, numbers and bytes.
pub open spec fn same_line(x: PatchLine, y: PatchLine) -> bool {
    &&& x.origin == y.origin
    &&& x.old_lineno == y.old_lineno
    &&& x.new_lineno == y.new_lineno
    &&& x.content@ == y.content@
}

/// Two line lists that read alike, line by line.
pub open spec fn same_lines(xs: Seq<PatchLine>, ys: Seq<PatchLine>) -> bool {
    &&& xs.len() == ys.len()
    &&& forall|j: int| 0 <= j < xs.len() ==> same_line(#[trigger] xs[j], ys[j])
}

/// Two hunk lists that read alike: the same spans and lines, hunk by hunk.
pub open spec fn same_hunks(xs: Seq<PatchHunk>, ys: Seq<PatchHunk>) -> bool {
    &&& xs.len() == ys.len()
    &&& forall|i: int|
        0 <= i < xs.len() ==> {
            &&& (#[trigger] xs[i]).old_start == ys[i].old_start
            &&& xs[i].old_lines == ys[i].old_lines
            &&& xs[i].new_start == ys[i].new_start
            &&& xs[i].new_lines == ys[i].new_lines
            &&& same_lines(xs[i].lines@, ys[i].lines@)
        }
}

/// Every hunk of a patch, read line by line: hunks that read alike with those
/// the patch holds.
pub(crate) fn read_hunks(p: &FilePatch) -> (r: Result<Vec<PatchHunk>, git2::Error>)
    ensures
        r matches Ok(hs) ==> same_hunks(hs@, p@.1),
{
    let n = patch_num_hunks(p);
    let mut out: Vec<PatchHunk> = Vec::new();
    for h in 0..n
        invariant
            n == p@.1.len(),
            out@.len() == h,
            forall|i: int| 0 <= i < h ==> {
                &&& (#[trigger] out@[i]).old_start == p@.1[i].old_start
                &&& out@[i].old_lines == p@.1[i].old_lines
                &&& out@[i].new_start == p@.1[i].new_start
                &&& out@[i].new_lines == p@.1[i].new_lines
                &&& same_lines(out@[i].lines@, p@.1[i].lines@)
            },
    {
        let (old_start, old_lines, new_start, new_lines) = match patch_hunk_range(p, h) {
            Ok(r) => r,
            Err(e) => return Err(e),
        };
        let m = match patch_hunk_len(p, h) {
            Ok(m) => m,
            Err(e) => return Err(e),
        };
        let mut lines: Vec<PatchLine> = Vec::new();
        for l in 0..m
            invariant
                h < p@.1.len(),
                m == p@.1[h as int].lines@.len(),
                lines@.len() == l,
                forall|j: int| 0 <= j < l ==> same_line(#[trigger] lines@[j], p@.1[h as int].lines@[j]),
        {
            match patch_line(p, h, l) {
                Ok(x) => lines.push(x),
                Err(e) => return Err(e),
            }
        }
        out.push(PatchHunk { old_start, old_lines, new_start, new_lines, lines });
    }
    Ok(out)
}

} // verus!
