//! Parsers for git's porcelain output and the simple lane layout used for
//! histories read through the command line.
use vstd::prelude::*;
use vstd::string::StringSliceAdditionalSpecFns;
use vstd::utf8::{decode_utf8, encode_utf8, is_char_boundary};

use crate::git::types::{
    edge_views, string_views, EdgeRow, EdgeType, GraphCommit, GraphEdge,
    file_views, hunk_views, line_views, status_views, DiffHunk, DiffHunkView, DiffLine,
    DiffLineView, DiffOrigin, DiffStatus, FileDiff, FileDiffView, FileStatus, FileStatusType,
    RefType, WorkingTreeStatus,
};
use crate::text::{
    chars_of, ends_with, find_char, find_sub, first_index, first_occ, has_prefix_str,
    has_suffix_str, lines, lines_of, parse_u32, parse_u32_chars, slice_of, split, split_char,
    starts_with, strip_all_prefix, strip_all_prefix_chars, string_of, views, words, words_of,
};

verus! {

// ---------------------------------------------------------------------------
// Object ids and ref names
// ---------------------------------------------------------------------------

/// The first seven characters (all of them when shorter).
pub open spec fn prefix7(s: Seq<char>) -> Seq<char> {
    if s.len() <= 7 {
        s
    } else {
        s.take(7)
    }
}

/// Abbreviated object id: the first seven characters.
pub fn short_oid(oid: &str) -> (r: String)
    ensures
        r@ == prefix7(oid@),
{
    let cs = chars_of(oid);
    if cs.len() <= 7 {
        string_of(&cs)
    } else {
        let p = slice_of(&cs, 0, 7);
        string_of(&p)
    }
}

/// Classification of a full ref name: local branch, remote branch (a remote's
/// `HEAD` is hidden) or tag, with its short name.
pub open spec fn ref_type_of(name: Seq<char>) -> Option<(RefType, Seq<char>)> {
    if starts_with(name, "refs/heads/"@) {
        Some((RefType::LocalBranch, name.skip(11)))
    } else if starts_with(name, "refs/remotes/"@) {
        if ends_with(name.skip(13), "/HEAD"@) {
            None
        } else {
            Some((RefType::RemoteBranch, name.skip(13)))
        }
    } else if starts_with(name, "refs/tags/"@) {
        Some((RefType::Tag, name.skip(10)))
    } else {
        None
    }
}

/// Classifies a full ref name.
pub fn parse_ref_type(full_name: &str) -> (r: Option<(RefType, String)>)
    ensures
        match r {
            Some((t, short)) => ref_type_of(full_name@) == Some((t, short@)),
            None => ref_type_of(full_name@) is None,
        },
{
    proof {
        reveal_strlit("refs/heads/");
        reveal_strlit("refs/remotes/");
        reveal_strlit("refs/tags/");
    }
    let cs = chars_of(full_name);
    if has_prefix_str(&cs, "refs/heads/") {
        let short = slice_of(&cs, 11, cs.len());
        Some((RefType::LocalBranch, string_of(&short)))
    } else if has_prefix_str(&cs, "refs/remotes/") {
        let short = slice_of(&cs, 13, cs.len());
        if has_suffix_str(&short, "/HEAD") {
            None
        } else {
            Some((RefType::RemoteBranch, string_of(&short)))
        }
    } else if has_prefix_str(&cs, "refs/tags/") {
        let short = slice_of(&cs, 10, cs.len());
        Some((RefType::Tag, string_of(&short)))
    } else {
        None
    }
}

// ---------------------------------------------------------------------------
// Working tree status (`git status --porcelain=v1 -z`)
// ---------------------------------------------------------------------------

/// The status a porcelain code letter denotes.
pub open spec fn status_type_of(code: char) -> Option<FileStatusType> {
    if code == 'A' || code == '?' {
        Some(FileStatusType::New)
    } else if code == 'M' {
        Some(FileStatusType::Modified)
    } else if code == 'D' {
        Some(FileStatusType::Deleted)
    } else if code == 'R' || code == 'C' {
        Some(FileStatusType::Renamed)
    } else if code == 'T' {
        Some(FileStatusType::Typechange)
    } else if code == 'U' {
        Some(FileStatusType::Conflicted)
    } else {
        None
    }
}

fn parse_status_type(code: char) -> (r: Option<FileStatusType>)
    ensures
        r == status_type_of(code),
{
    if code == 'A' || code == '?' {
        Some(FileStatusType::New)
    } else if code == 'M' {
        Some(FileStatusType::Modified)
    } else if code == 'D' {
        Some(FileStatusType::Deleted)
    } else if code == 'R' || code == 'C' {
        Some(FileStatusType::Renamed)
    } else if code == 'T' {
        Some(FileStatusType::Typechange)
    } else if code == 'U' {
        Some(FileStatusType::Conflicted)
    } else {
        None
    }
}

pub type StatusRow = (Seq<char>, FileStatusType, bool);

/// The three buckets, plus a rename entry waiting for its new path.
pub struct StatusAcc {
    pub unstaged: Seq<StatusRow>,
    pub staged: Seq<StatusRow>,
    pub conflicted: Seq<StatusRow>,
    pub pending: Option<(char, char, Seq<char>)>,
    pub cut_ok: bool,
}

/// Whether an `XY` pair is an unmerged (conflict) state.
pub open spec fn is_conflict_pair(x: char, y: char) -> bool {
    x == 'U' || y == 'U' || (x == 'A' && y == 'A') || (x == 'D' && y == 'D')
}

/// Files one porcelain entry `XY path` contributes to each bucket.
pub open spec fn status_emit(acc: StatusAcc, x: char, y: char, path: Seq<char>) -> StatusAcc {
    if is_conflict_pair(x, y) {
        StatusAcc {
            conflicted: acc.conflicted.push((path, FileStatusType::Conflicted, false)),
            pending: None,
            ..acc
        }
    } else {
        let staged = match status_type_of(x) {
            Some(st) => if x != '?' {
                acc.staged.push((path, st, false))
            } else {
                acc.staged
            },
            None => acc.staged,
        };
        let unstaged = match status_type_of(y) {
            Some(st) => acc.unstaged.push((path, st, false)),
            None => if x == '?' {
                acc.unstaged.push((path, FileStatusType::New, false))
            } else {
                acc.unstaged
            },
        };
        StatusAcc { unstaged, staged, conflicted: acc.conflicted, pending: None, cut_ok: acc.cut_ok }
    }
}

/// Where one entry `XY path` is filed: only among the conflicts when `XY` is
/// an unmerged pair; otherwise among the staged files when `X` names a change
/// other than `?`, and among the unstaged files when `Y` names a change or `X`
/// is `?` (as a new file); each list grows at its end.
pub proof fn lemma_entry_filed(acc: StatusAcc, x: char, y: char, path: Seq<char>)
    ensures
        ({
            let r = status_emit(acc, x, y, path);
            &&& is_conflict_pair(x, y) ==> r.conflicted == acc.conflicted.push((
                path,
                FileStatusType::Conflicted,
                false,
            )) && r.staged == acc.staged && r.unstaged == acc.unstaged
            &&& !is_conflict_pair(x, y) ==> {
                &&& r.conflicted == acc.conflicted
                &&& r.staged == (if status_type_of(x) is Some && x != '?' {
                    acc.staged.push((path, status_type_of(x)->0, false))
                } else {
                    acc.staged
                })
                &&& r.unstaged == (if status_type_of(y) is Some {
                    acc.unstaged.push((path, status_type_of(y)->0, false))
                } else if x == '?' {
                    acc.unstaged.push((path, FileStatusType::New, false))
                } else {
                    acc.unstaged
                })
            }
        }),
{
}

/// The code letters of an entry that is not an unmerged pair file it as git
/// documents them: `X` among the staged files and `Y` among the unstaged
/// ones, `A` as new, `M` as modified, `D` as deleted, `R` and `C` as renamed,
/// `T` as a type change; `??` is a new unstaged file only; `' '` files
/// nothing on its side.
pub proof fn lemma_code_letters(acc: StatusAcc, x: char, y: char, path: Seq<char>)
    requires
        !is_conflict_pair(x, y),
    ensures
        ({
            let r = status_emit(acc, x, y, path);
            &&& x == 'A' ==> r.staged == acc.staged.push((path, FileStatusType::New, false))
            &&& x == 'M' ==> r.staged == acc.staged.push((path, FileStatusType::Modified, false))
            &&& x == 'D' ==> r.staged == acc.staged.push((path, FileStatusType::Deleted, false))
            &&& (x == 'R' || x == 'C') ==> r.staged == acc.staged.push((path, FileStatusType::Renamed, false))
            &&& x == 'T' ==> r.staged == acc.staged.push((path, FileStatusType::Typechange, false))
            &&& (x == '?' || x == ' ') ==> r.staged == acc.staged
            &&& y == 'A' ==> r.unstaged == acc.unstaged.push((path, FileStatusType::New, false))
            &&& y == 'M' ==> r.unstaged == acc.unstaged.push((path, FileStatusType::Modified, false))
            &&& y == 'D' ==> r.unstaged == acc.unstaged.push((path, FileStatusType::Deleted, false))
            &&& (y == 'R' || y == 'C') ==> r.unstaged == acc.unstaged.push((path, FileStatusType::Renamed, false))
            &&& y == 'T' ==> r.unstaged == acc.unstaged.push((path, FileStatusType::Typechange, false))
            &&& y == '?' ==> r.unstaged == acc.unstaged.push((path, FileStatusType::New, false))
            &&& (y == ' ' && x != '?') ==> r.unstaged == acc.unstaged
            &&& r.conflicted == acc.conflicted
        }),
{
}

/// Consumes one non-empty NUL-separated field. An entry is read by its
/// bytes: `X` and `Y` are its first two bytes, each taken as a character,
/// and the path is the text after its third byte; an entry shorter than
/// three bytes is skipped. `cut_ok` records that the third byte of every
/// entry read ends a character, as the text after it must.
pub open spec fn status_step(acc: StatusAcc, f: Seq<char>) -> StatusAcc {
    match acc.pending {
        Some((x, y, _)) => status_emit(acc, x, y, f),
        None => {
            let b = encode_utf8(f);
            if b.len() < 3 {
                acc
            } else {
                let x = b[0] as char;
                let y = b[1] as char;
                let path = decode_utf8(b.subrange(3, b.len() as int));
                let a = StatusAcc { cut_ok: acc.cut_ok && is_char_boundary(b, 3), ..acc };
                if x == 'R' || x == 'C' {
                    StatusAcc { pending: Some((x, y, path)), ..a }
                } else {
                    status_emit(a, x, y, path)
                }
            }
        },
    }
}

/// The non-empty fields of a NUL-separated listing.
pub open spec fn nonempty(fields: Seq<Seq<char>>) -> Seq<Seq<char>>
    decreases fields.len(),
{
    if fields.len() == 0 {
        Seq::empty()
    } else if fields.last().len() == 0 {
        nonempty(fields.drop_last())
    } else {
        nonempty(fields.drop_last()).push(fields.last())
    }
}

pub open spec fn status_fold(fields: Seq<Seq<char>>) -> StatusAcc
    decreases fields.len(),
{
    if fields.len() == 0 {
        StatusAcc {
            unstaged: Seq::empty(),
            staged: Seq::empty(),
            conflicted: Seq::empty(),
            pending: None,
            cut_ok: true,
        }
    } else {
        status_step(status_fold(fields.drop_last()), fields.last())
    }
}

/// The status listing `git status --porcelain=v1 -z` describes: a rename or
/// copy entry takes its path from the field that follows it.
pub open spec fn porcelain_status(output: Seq<char>) -> StatusAcc {
    let acc = status_fold(nonempty(split(output, '\0')));
    match acc.pending {
        Some((x, y, p)) => status_emit(acc, x, y, p),
        None => acc,
    }
}

/// No row of a status listing is marked binary, and no row is conflicted
/// outside the conflict list.
pub open spec fn rows_plain(acc: StatusAcc) -> bool {
    &&& forall|i: int| 0 <= i < acc.unstaged.len() ==> !(#[trigger] acc.unstaged[i]).2
    &&& forall|i: int| 0 <= i < acc.staged.len() ==> !(#[trigger] acc.staged[i]).2
    &&& forall|i: int|
        0 <= i < acc.conflicted.len() ==> !(#[trigger] acc.conflicted[i]).2 && acc.conflicted[i].1
            == FileStatusType::Conflicted
}

proof fn lemma_emit_plain(acc: StatusAcc, x: char, y: char, path: Seq<char>)
    requires
        rows_plain(acc),
    ensures
        rows_plain(status_emit(acc, x, y, path)),
{
    let r = status_emit(acc, x, y, path);
    assert forall|i: int| 0 <= i < r.unstaged.len() implies !(#[trigger] r.unstaged[i]).2 by {
        if i < acc.unstaged.len() {
            assert(r.unstaged[i] == acc.unstaged[i]);
        }
    }
    assert forall|i: int| 0 <= i < r.staged.len() implies !(#[trigger] r.staged[i]).2 by {
        if i < acc.staged.len() {
            assert(r.staged[i] == acc.staged[i]);
        }
    }
    assert forall|i: int| 0 <= i < r.conflicted.len() implies !(#[trigger] r.conflicted[i]).2
        && r.conflicted[i].1 == FileStatusType::Conflicted by {
        if i < acc.conflicted.len() {
            assert(r.conflicted[i] == acc.conflicted[i]);
        }
    }
}

proof fn lemma_fold_plain(fields: Seq<Seq<char>>)
    ensures
        rows_plain(status_fold(fields)),
    decreases fields.len(),
{
    if fields.len() > 0 {
        lemma_fold_plain(fields.drop_last());
        let acc = status_fold(fields.drop_last());
        let f = fields.last();
        match acc.pending {
            Some((x, y, _)) => lemma_emit_plain(acc, x, y, f),
            None => {
                let b = encode_utf8(f);
                if b.len() >= 3 {
                    let a = StatusAcc { cut_ok: acc.cut_ok && is_char_boundary(b, 3), ..acc };
                    lemma_emit_plain(a, b[0] as char, b[1] as char, decode_utf8(b.subrange(3, b.len() as int)));
                }
            },
        }
    }
}

/// Every file of a status listing is reported as not binary, and every
/// conflicted file with the conflicted status.
pub proof fn lemma_status_rows_plain(output: Seq<char>)
    ensures
        rows_plain(porcelain_status(output)),
{
    let acc = status_fold(nonempty(split(output, '\0')));
    lemma_fold_plain(nonempty(split(output, '\0')));
    if let Some((x, y, p)) = acc.pending {
        lemma_emit_plain(acc, x, y, p);
    }
}

fn status_row(path: &[char], st: FileStatusType) -> (r: FileStatus)
    ensures
        r@ == (path@, st, false),
{
    FileStatus { path: string_of(path), status: st, is_binary: false }
}

fn emit_status(
    unstaged: &mut Vec<FileStatus>,
    staged: &mut Vec<FileStatus>,
    conflicted: &mut Vec<FileStatus>,
    x: char,
    y: char,
    path: &[char],
)
    ensures
        ({
            let acc = StatusAcc {
                unstaged: status_views(old(unstaged)@),
                staged: status_views(old(staged)@),
                conflicted: status_views(old(conflicted)@),
                pending: None,
                cut_ok: true,
            };
            let r = status_emit(acc, x, y, path@);
            &&& status_views(final(unstaged)@) == r.unstaged
            &&& status_views(final(staged)@) == r.staged
            &&& status_views(final(conflicted)@) == r.conflicted
        }),
{
    if x == 'U' || y == 'U' || (x == 'A' && y == 'A') || (x == 'D' && y == 'D') {
        conflicted.push(status_row(path, FileStatusType::Conflicted));
        assert(status_views(conflicted@) =~= status_views(old(conflicted)@).push(
            (path@, FileStatusType::Conflicted, false),
        ));
        return ;
    }
    match parse_status_type(x) {
        Some(st) => {
            if x != '?' {
                staged.push(status_row(path, st));
                assert(status_views(staged@) =~= status_views(old(staged)@).push(
                    (path@, st, false),
                ));
            }
        },
        None => {},
    }
    match parse_status_type(y) {
        Some(st) => {
            unstaged.push(status_row(path, st));
            assert(status_views(unstaged@) =~= status_views(old(unstaged)@).push(
                (path@, st, false),
            ));
        },
        None => {
            if x == '?' {
                unstaged.push(status_row(path, FileStatusType::New));
                assert(status_views(unstaged@) =~= status_views(old(unstaged)@).push(
                    (path@, FileStatusType::New, false),
                ));
            }
        },
    }
}

/// Whether every entry of a porcelain listing can be cut after its third
/// byte (git writes only such listings; cutting another one panics).
pub open spec fn porcelain_readable(output: Seq<char>) -> bool {
    status_fold(nonempty(split(output, '\0'))).cut_ok
}

proof fn lemma_cut_ok_prefix(all: Seq<Seq<char>>, i: int, j: int)
    requires
        0 <= i <= j <= all.len(),
        status_fold(nonempty(all.take(j))).cut_ok,
    ensures
        status_fold(nonempty(all.take(i))).cut_ok,
    decreases j - i,
{
    if i < j {
        let t = all.take(j);
        assert(t.drop_last() =~= all.take(j - 1));
        let x = nonempty(all.take(j - 1));
        if t.last().len() > 0 {
            assert(nonempty(t) == x.push(t.last()));
            assert(x.push(t.last()).drop_last() =~= x);
        } else {
            assert(nonempty(t) == x);
        }
        lemma_cut_ok_prefix(all, i, j - 1);
    }
}

/// The fields of a listing, the entry state before field `i`, and the step
/// that field makes.
proof fn lemma_fold_step(all: Seq<Seq<char>>, i: int)
    requires
        0 <= i < all.len(),
    ensures
        all[i].len() > 0 ==> status_fold(nonempty(all.take(i + 1))) == status_step(
            status_fold(nonempty(all.take(i))),
            all[i],
        ),
        all[i].len() == 0 ==> status_fold(nonempty(all.take(i + 1))) == status_fold(nonempty(all.take(i))),
{
    assert(all.take(i + 1).drop_last() =~= all.take(i));
    assert(all.take(i + 1).last() == all[i]);
    let ne = nonempty(all.take(i));
    if all[i].len() > 0 {
        assert(nonempty(all.take(i + 1)) == ne.push(all[i]));
        assert(ne.push(all[i]).drop_last() =~= ne);
        assert(ne.push(all[i]).last() == all[i]);
    } else {
        assert(nonempty(all.take(i + 1)) == ne);
    }
}

/// Whether every entry of a porcelain listing can be cut after its third
/// byte.
pub fn porcelain_readable_of(output: &str) -> (r: bool)
    ensures
        r == porcelain_readable(output@),
{
    let cs = chars_of(output);
    let fields = split_char(&cs, '\0');
    let ghost all = views(fields@);
    let mut has_pending = false;
    let mut ok = true;
    for i in 0..fields.len()
        invariant
            all == views(fields@),
            all == split(output@, '\0'),
            has_pending <==> status_fold(nonempty(all.take(i as int))).pending is Some,
            ok == status_fold(nonempty(all.take(i as int))).cut_ok,
    {
        let f = &fields[i];
        proof {
            lemma_fold_step(all, i as int);
            assert(all[i as int] == f@);
        }
        if f.len() == 0 {
        } else if has_pending {
            has_pending = false;
        } else {
            let fs = string_of(f);
            let b = fs.as_str().as_bytes();
            if b.len() >= 3 {
                if !fs.as_str().is_char_boundary(3) {
                    ok = false;
                }
                let x = b[0] as char;
                if x == 'R' || x == 'C' {
                    has_pending = true;
                }
            }
        }
    }
    assert(all.take(all.len() as int) =~= all);
    ok
}

/// Sorts `git status --porcelain=v1 -z` output into unstaged, staged and
/// conflicted files.
pub fn parse_porcelain_status(output: &str) -> (r: WorkingTreeStatus)
    requires
        porcelain_readable(output@),
    ensures
        status_views(r.unstaged@) == porcelain_status(output@).unstaged,
        status_views(r.staged@) == porcelain_status(output@).staged,
        status_views(r.conflicted@) == porcelain_status(output@).conflicted,
{
    let cs = chars_of(output);
    let fields = split_char(&cs, '\0');
    let mut unstaged: Vec<FileStatus> = Vec::new();
    let mut staged: Vec<FileStatus> = Vec::new();
    let mut conflicted: Vec<FileStatus> = Vec::new();
    let mut has_pending = false;
    let mut px: char = ' ';
    let mut py: char = ' ';
    let mut ppath: Vec<char> = Vec::new();
    let ghost all = views(fields@);
    proof {
        assert(all.take(all.len() as int) =~= all);
    }
    for i in 0..fields.len()
        invariant
            all == views(fields@),
            all == split(output@, '\0'),
            status_fold(nonempty(all.take(all.len() as int))).cut_ok,
            ({
                let acc = status_fold(nonempty(all.take(i as int)));
                &&& status_views(unstaged@) == acc.unstaged
                &&& status_views(staged@) == acc.staged
                &&& status_views(conflicted@) == acc.conflicted
                &&& (has_pending <==> acc.pending is Some)
                &&& (has_pending ==> acc.pending == Some((px, py, ppath@)))
            }),
    {
        let f = &fields[i];
        proof {
            lemma_fold_step(all, i as int);
            assert(all[i as int] == f@);
            lemma_cut_ok_prefix(all, i + 1, all.len() as int);
        }
        if f.len() == 0 {
        } else if has_pending {
            emit_status(&mut unstaged, &mut staged, &mut conflicted, px, py, f);
            has_pending = false;
        } else {
            let fs = string_of(f);
            let b = fs.as_str().as_bytes();
            if b.len() >= 3 {
                let x = b[0] as char;
                let y = b[1] as char;
                let (_, rest) = fs.as_str().split_at(3);
                let p = chars_of(rest);
                proof {
                    assert(rest.spec_bytes() =~= encode_utf8(f@).subrange(3, encode_utf8(f@).len() as int));
                    vstd::utf8::encode_utf8_decode_utf8(rest@);
                }
                if x == 'R' || x == 'C' {
                    has_pending = true;
                    px = x;
                    py = y;
                    ppath = p;
                } else {
                    emit_status(&mut unstaged, &mut staged, &mut conflicted, x, y, &p);
                }
            }
        }
    }
    assert(all.take(all.len() as int) =~= all);
    if has_pending {
        emit_status(&mut unstaged, &mut staged, &mut conflicted, px, py, &ppath);
    }
    WorkingTreeStatus { unstaged, staged, conflicted }
}

/// `(staged, unstaged, conflicted)` counts of a status.
pub fn status_dirty_counts(status: WorkingTreeStatus) -> (r: (usize, usize, usize))
    ensures
        r == (status.staged@.len() as usize, status.unstaged@.len() as usize,
            status.conflicted@.len() as usize),
{
    (status.staged.len(), status.unstaged.len(), status.conflicted.len())
}

// ---------------------------------------------------------------------------
// Unified diffs (`git diff`)
// ---------------------------------------------------------------------------

/// The path a `diff --git a/<p> b/<p>` line names: the text after the first
/// ` b/` up to the next one (else the last word), leading `b/`s removed.
pub open spec fn header_path(line: Seq<char>) -> Seq<char> {
    let raw = match first_occ(line, " b/"@) {
        Some(i) => {
            let rest = line.skip(i + 3);
            match first_occ(rest, " b/"@) {
                Some(j) => rest.take(j),
                None => rest,
            }
        },
        None => {
            let w = words(line);
            if w.len() > 0 {
                w.last()
            } else {
                Seq::empty()
            }
        },
    };
    strip_all_prefix(raw, "b/"@)
}

fn header_path_of(line: &[char]) -> (r: Vec<char>)
    ensures
        r@ == header_path(line@),
{
    let marker = chars_of(" b/");
    let bp = chars_of("b/");
    proof {
        reveal_strlit(" b/");
    }
    let raw = match find_sub(line, &marker) {
        Some(i) => {
            proof {
                crate::text::lemma_first_occ(line@, marker@);
            }
            let n = line.len();
            assert(marker@.len() == 3);
            assert(i + 3 <= n);
            let rest = slice_of(line, i + 3, n);
            assert(rest@ =~= line@.skip(i + 3));
            match find_sub(&rest, &marker) {
                Some(j) => {
                    proof {
                        crate::text::lemma_first_occ(rest@, marker@);
                    }
                    let t = slice_of(&rest, 0, j);
                    assert(t@ =~= rest@.take(j as int));
                    t
                },
                None => rest,
            }
        },
        None => {
            let w = words_of(line);
            if w.len() > 0 {
                let l = crate::text::copy_chars(&w[w.len() - 1]);
                assert(views(w@).last() == w@[w@.len() - 1]@);
                l
            } else {
                Vec::new()
            }
        },
    };
    strip_all_prefix_chars(&raw, &bp)
}

/// The file status an extended header line announces.
pub open spec fn status_from_header(line: Seq<char>) -> DiffStatus {
    if starts_with(line, "new file mode"@) {
        DiffStatus::Added
    } else if starts_with(line, "deleted file mode"@) {
        DiffStatus::Deleted
    } else if starts_with(line, "rename "@) {
        DiffStatus::Renamed
    } else {
        DiffStatus::Modified
    }
}

fn diff_status_from_header(line: &[char]) -> (r: DiffStatus)
    ensures
        r == status_from_header(line@),
{
    if has_prefix_str(line, "new file mode") {
        DiffStatus::Added
    } else if has_prefix_str(line, "deleted file mode") {
        DiffStatus::Deleted
    } else if has_prefix_str(line, "rename ") {
        DiffStatus::Renamed
    } else {
        DiffStatus::Modified
    }
}

/// Leading `-` and `+` characters removed.
pub open spec fn strip_signs(s: Seq<char>) -> Seq<char>
    decreases s.len(),
{
    if s.len() > 0 && (s[0] == '-' || s[0] == '+') {
        strip_signs(s.skip(1))
    } else {
        s
    }
}

/// `start[,count]` of one side of a hunk header: a missing or unreadable
/// start is 0, a missing or unreadable count is 1.
pub open spec fn range_numbers(word: Seq<char>) -> (u32, u32) {
    let raw = strip_signs(word);
    match first_index(raw, ',') {
        Some(i) => (
            match parse_u32(raw.take(i)) {
                Some(v) => v,
                None => 0,
            },
            match parse_u32(raw.skip(i + 1)) {
                Some(v) => v,
                None => 1,
            },
        ),
        None => (
            match parse_u32(raw) {
                Some(v) => v,
                None => 0,
            },
            1,
        ),
    }
}

/// `(old_start, old_lines, new_start, new_lines)` of an `@@ -a,b +c,d @@` line.
pub open spec fn hunk_numbers(header: Seq<char>) -> (u32, u32, u32, u32) {
    let w = words(header);
    let o = range_numbers(
        if w.len() > 1 {
            w[1]
        } else {
            Seq::empty()
        },
    );
    let n = range_numbers(
        if w.len() > 2 {
            w[2]
        } else {
            Seq::empty()
        },
    );
    (o.0, o.1, n.0, n.1)
}

fn range_numbers_of(word: &[char]) -> (r: (u32, u32))
    ensures
        r == range_numbers(word@),
{
    let mut k: usize = 0;
    assert(word@.skip(0) =~= word@);
    while k < word.len() && (word[k] == '-' || word[k] == '+')
        invariant
            k <= word@.len(),
            strip_signs(word@.skip(k as int)) == strip_signs(word@),
        decreases word.len() - k,
    {
        assert(word@.skip(k as int).skip(1) =~= word@.skip(k + 1));
        k = k + 1;
    }
    assert(strip_signs(word@.skip(k as int)) == word@.skip(k as int));
    let raw = slice_of(word, k, word.len());
    assert(raw@ =~= word@.skip(k as int));
    let found = find_char(&raw, ',');
    proof {
        crate::text::lemma_first_index(raw@, ',');
    }
    match found {
        Some(i) => {
            let a = slice_of(&raw, 0, i);
            let b = slice_of(&raw, i + 1, raw.len());
            assert(a@ =~= raw@.take(i as int));
            assert(b@ =~= raw@.skip(i + 1));
            let start = match parse_u32_chars(&a) {
                Some(v) => v,
                None => 0,
            };
            let count = match parse_u32_chars(&b) {
                Some(v) => v,
                None => 1,
            };
            (start, count)
        },
        None => {
            let start = match parse_u32_chars(&raw) {
                Some(v) => v,
                None => 0,
            };
            (start, 1)
        },
    }
}

fn parse_hunk_header(header: &[char]) -> (r: (u32, u32, u32, u32))
    ensures
        r == hunk_numbers(header@),
{
    let w = words_of(header);
    let empty: Vec<char> = Vec::new();
    let o = if w.len() > 1 {
        assert(views(w@)[1] == w@[1]@);
        range_numbers_of(&w[1])
    } else {
        range_numbers_of(&empty)
    };
    let n = if w.len() > 2 {
        assert(views(w@)[2] == w@[2]@);
        range_numbers_of(&w[2])
    } else {
        range_numbers_of(&empty)
    };
    (o.0, o.1, n.0, n.1)
}

/// Line counter step (wraps like release-mode `+= 1`).
pub open spec fn next_line_no(n: u32) -> u32 {
    if n == u32::MAX {
        0
    } else {
        (n + 1) as u32
    }
}

/// Files read so far, the file being read, and the next old/new line numbers.
pub struct DiffAcc {
    pub files: Seq<FileDiffView>,
    pub cur: Option<FileDiffView>,
    pub old: u32,
    pub new: u32,
}

/// A hunk line as it is recorded (without its origin marker, newline added).
pub open spec fn body_line(origin: DiffOrigin, content: Seq<char>, old_no: Option<u32>, new_no: Option<u32>) -> DiffLineView {
    DiffLineView {
        origin,
        content: content.push('\n'),
        old_lineno: old_no,
        new_lineno: new_no,
        spans: Seq::empty(),
    }
}

/// `f` with `l` appended to its last hunk.
pub open spec fn with_line(f: FileDiffView, l: DiffLineView) -> FileDiffView {
    let h = f.hunks.last();
    FileDiffView {
        hunks: f.hunks.update(f.hunks.len() - 1, DiffHunkView { lines: h.lines.push(l), ..h }),
        ..f
    }
}

/// Reads one line of a unified diff.
pub open spec fn diff_step(acc: DiffAcc, line: Seq<char>) -> DiffAcc {
    if starts_with(line, "diff --git "@) {
        let files = match acc.cur {
            Some(f) => acc.files.push(f),
            None => acc.files,
        };
        DiffAcc {
            files,
            cur: Some(
                FileDiffView {
                    path: header_path(line),
                    status: DiffStatus::Modified,
                    is_binary: false,
                    hunks: Seq::empty(),
                },
            ),
            ..acc
        }
    } else {
        match acc.cur {
            None => acc,
            Some(f) => if starts_with(line, "Binary files "@) {
                DiffAcc { cur: Some(FileDiffView { is_binary: true, ..f }), ..acc }
            } else if starts_with(line, "new file mode"@) || starts_with(line, "deleted file mode"@)
                || starts_with(line, "rename "@) {
                DiffAcc { cur: Some(FileDiffView { status: status_from_header(line), ..f }), ..acc }
            } else if starts_with(line, "+++ b/"@) {
                DiffAcc { cur: Some(FileDiffView { path: line.skip(6), ..f }), ..acc }
            } else if starts_with(line, "@@ "@) {
                let (os, ol, ns, nl) = hunk_numbers(line);
                let h = DiffHunkView {
                    header: line.push('\n'),
                    old_start: os,
                    old_lines: ol,
                    new_start: ns,
                    new_lines: nl,
                    lines: Seq::empty(),
                };
                DiffAcc {
                    files: acc.files,
                    cur: Some(FileDiffView { hunks: f.hunks.push(h), ..f }),
                    old: os,
                    new: ns,
                }
            } else if f.hunks.len() > 0 && line.len() > 0 && line[0] == '+' {
                DiffAcc {
                    cur: Some(with_line(f, body_line(DiffOrigin::Add, line.skip(1), None, Some(acc.new)))),
                    new: next_line_no(acc.new),
                    ..acc
                }
            } else if f.hunks.len() > 0 && line.len() > 0 && line[0] == '-' {
                DiffAcc {
                    cur: Some(with_line(f, body_line(DiffOrigin::Delete, line.skip(1), Some(acc.old), None))),
                    old: next_line_no(acc.old),
                    ..acc
                }
            } else if f.hunks.len() > 0 && line.len() > 0 && line[0] == ' ' {
                DiffAcc {
                    files: acc.files,
                    cur: Some(
                        with_line(
                            f,
                            body_line(DiffOrigin::Context, line.skip(1), Some(acc.old), Some(acc.new)),
                        ),
                    ),
                    old: next_line_no(acc.old),
                    new: next_line_no(acc.new),
                }
            } else {
                acc
            },
        }
    }
}

pub open spec fn diff_fold(ls: Seq<Seq<char>>) -> DiffAcc
    decreases ls.len(),
{
    if ls.len() == 0 {
        DiffAcc { files: Seq::empty(), cur: None, old: 0, new: 0 }
    } else {
        diff_step(diff_fold(ls.drop_last()), ls.last())
    }
}

/// The file diffs a unified diff text describes, in order.
pub open spec fn unified_diff(text: Seq<char>) -> Seq<FileDiffView> {
    let acc = diff_fold(lines(text));
    match acc.cur {
        Some(f) => acc.files.push(f),
        None => acc.files,
    }
}

/// A hunk line carries the line numbers of the sides it belongs to: a
/// context line both, an added line only the new one, a removed line only the
/// old one.
pub open spec fn line_numbered(l: DiffLineView) -> bool {
    match l.origin {
        DiffOrigin::Context => l.old_lineno is Some && l.new_lineno is Some,
        DiffOrigin::Add => l.old_lineno is None && l.new_lineno is Some,
        DiffOrigin::Delete => l.old_lineno is Some && l.new_lineno is None,
    }
}

pub open spec fn file_numbered(f: FileDiffView) -> bool {
    forall|h: int, i: int|
        0 <= h < f.hunks.len() && 0 <= i < f.hunks[h].lines.len() ==> line_numbered(
            #[trigger] f.hunks[h].lines[i],
        )
}

pub open spec fn acc_numbered(acc: DiffAcc) -> bool {
    &&& forall|k: int| 0 <= k < acc.files.len() ==> file_numbered(#[trigger] acc.files[k])
    &&& acc.cur matches Some(f) ==> file_numbered(f)
}

proof fn lemma_with_line_numbered(f: FileDiffView, l: DiffLineView)
    requires
        file_numbered(f),
        f.hunks.len() > 0,
        line_numbered(l),
    ensures
        file_numbered(with_line(f, l)),
{
    let g = with_line(f, l);
    assert forall|h: int, i: int| 0 <= h < g.hunks.len() && 0 <= i < g.hunks[h].lines.len() implies line_numbered(
        #[trigger] g.hunks[h].lines[i],
    ) by {
        if h == f.hunks.len() - 1 {
            if i < f.hunks[h].lines.len() {
                assert(g.hunks[h].lines[i] == f.hunks[h].lines[i]);
            }
        } else {
            assert(g.hunks[h] == f.hunks[h]);
        }
    }
}

#[verifier::spinoff_prover]
proof fn lemma_step_numbered(acc: DiffAcc, line: Seq<char>)
    requires
        acc_numbered(acc),
    ensures
        acc_numbered(diff_step(acc, line)),
{
    let r = diff_step(acc, line);
    if starts_with(line, "diff --git "@) {
        assert forall|k: int| 0 <= k < r.files.len() implies file_numbered(#[trigger] r.files[k]) by {
            if k < acc.files.len() {
                assert(r.files[k] == acc.files[k]);
            }
        }
        let nf = r.cur->0;
        assert(nf.hunks.len() == 0);
    } else {
        match acc.cur {
            None => {},
            Some(f) => {
                if starts_with(line, "Binary files "@) {
                } else if starts_with(line, "new file mode"@) || starts_with(line, "deleted file mode"@)
                    || starts_with(line, "rename "@) {
                } else if starts_with(line, "+++ b/"@) {
                } else if starts_with(line, "@@ "@) {
                    let g = r.cur->0;
                    assert forall|h: int, i: int| 0 <= h < g.hunks.len() && 0 <= i < g.hunks[h].lines.len() implies line_numbered(
                        #[trigger] g.hunks[h].lines[i],
                    ) by {
                        if h < f.hunks.len() {
                            assert(g.hunks[h] == f.hunks[h]);
                        }
                    }
                } else if f.hunks.len() > 0 && line.len() > 0 && line[0] == '+' {
                    lemma_with_line_numbered(f, body_line(DiffOrigin::Add, line.skip(1), None, Some(acc.new)));
                } else if f.hunks.len() > 0 && line.len() > 0 && line[0] == '-' {
                    lemma_with_line_numbered(f, body_line(DiffOrigin::Delete, line.skip(1), Some(acc.old), None));
                } else if f.hunks.len() > 0 && line.len() > 0 && line[0] == ' ' {
                    lemma_with_line_numbered(
                        f,
                        body_line(DiffOrigin::Context, line.skip(1), Some(acc.old), Some(acc.new)),
                    );
                }
            },
        }
    }
}

proof fn lemma_fold_numbered(ls: Seq<Seq<char>>)
    ensures
        acc_numbered(diff_fold(ls)),
    decreases ls.len(),
{
    if ls.len() > 0 {
        lemma_fold_numbered(ls.drop_last());
        lemma_step_numbered(diff_fold(ls.drop_last()), ls.last());
    }
}

/// Every line of every parsed hunk carries the line numbers of the sides it
/// belongs to: a context line both, an added line only the new one, a removed
/// line only the old one.
pub proof fn lemma_parsed_lines_numbered(text: Seq<char>)
    ensures
        forall|k: int| 0 <= k < unified_diff(text).len() ==> file_numbered(#[trigger] unified_diff(text)[k]),
{
    let acc = diff_fold(lines(text));
    lemma_fold_numbered(lines(text));
    assert forall|k: int| 0 <= k < unified_diff(text).len() implies file_numbered(#[trigger] unified_diff(text)[k]) by {
        if k < acc.files.len() {
            assert(unified_diff(text)[k] == acc.files[k]);
        }
    }
}

/// A line that takes a number on the old side: context or removed.
pub open spec fn on_old_side(o: DiffOrigin) -> bool {
    o == DiffOrigin::Context || o == DiffOrigin::Delete
}

/// A line that takes a number on the new side: context or added.
pub open spec fn on_new_side(o: DiffOrigin) -> bool {
    o == DiffOrigin::Context || o == DiffOrigin::Add
}

/// How many of the first `k` lines take a number on the old side.
pub open spec fn old_before(ls: Seq<DiffLineView>, k: int) -> nat
    decreases k,
{
    if k <= 0 {
        0
    } else {
        old_before(ls, k - 1) + if on_old_side(ls[k - 1].origin) {
            1nat
        } else {
            0nat
        }
    }
}

/// How many of the first `k` lines take a number on the new side.
pub open spec fn new_before(ls: Seq<DiffLineView>, k: int) -> nat
    decreases k,
{
    if k <= 0 {
        0
    } else {
        new_before(ls, k - 1) + if on_new_side(ls[k - 1].origin) {
            1nat
        } else {
            0nat
        }
    }
}

/// `s` counted on by `n`, one line at a time (wrapping as `next_line_no`
/// does).
pub open spec fn counted(s: u32, n: nat) -> u32
    decreases n,
{
    if n == 0 {
        s
    } else {
        next_line_no(counted(s, (n - 1) as nat))
    }
}

/// Each line of a hunk is numbered by counting from the hunk's start: its
/// old number is the old start plus the old-side lines before it, its new
/// number the new start plus the new-side lines before it.
pub open spec fn hunk_counted(h: DiffHunkView) -> bool {
    forall|i: int|
        0 <= i < h.lines.len() ==> {
            &&& on_old_side((#[trigger] h.lines[i]).origin) ==> h.lines[i].old_lineno == Some(
                counted(h.old_start, old_before(h.lines, i)),
            )
            &&& on_new_side(h.lines[i].origin) ==> h.lines[i].new_lineno == Some(
                counted(h.new_start, new_before(h.lines, i)),
            )
        }
}

pub open spec fn file_counted(f: FileDiffView) -> bool {
    forall|h: int| 0 <= h < f.hunks.len() ==> hunk_counted(#[trigger] f.hunks[h])
}

pub open spec fn acc_counted(acc: DiffAcc) -> bool {
    &&& forall|k: int| 0 <= k < acc.files.len() ==> file_counted(#[trigger] acc.files[k])
    &&& acc.cur matches Some(f) ==> {
        &&& file_counted(f)
        &&& f.hunks.len() > 0 ==> {
            let h = f.hunks.last();
            &&& acc.old == counted(h.old_start, old_before(h.lines, h.lines.len() as int))
            &&& acc.new == counted(h.new_start, new_before(h.lines, h.lines.len() as int))
        }
    }
}

proof fn lemma_before_push(ls: Seq<DiffLineView>, l: DiffLineView, k: int)
    requires
        0 <= k <= ls.len(),
    ensures
        old_before(ls.push(l), k) == old_before(ls, k),
        new_before(ls.push(l), k) == new_before(ls, k),
    decreases k,
{
    if k > 0 {
        lemma_before_push(ls, l, k - 1);
        assert(ls.push(l)[k - 1] == ls[k - 1]);
    }
}

proof fn lemma_with_line_counted(f: FileDiffView, l: DiffLineView, old: u32, new: u32)
    requires
        file_counted(f),
        f.hunks.len() > 0,
        old == counted(f.hunks.last().old_start, old_before(f.hunks.last().lines, f.hunks.last().lines.len() as int)),
        new == counted(f.hunks.last().new_start, new_before(f.hunks.last().lines, f.hunks.last().lines.len() as int)),
        on_old_side(l.origin) ==> l.old_lineno == Some(old),
        on_new_side(l.origin) ==> l.new_lineno == Some(new),
    ensures
        ({
            let g = with_line(f, l);
            let h = g.hunks.last();
            &&& file_counted(g)
            &&& g.hunks.len() == f.hunks.len()
            &&& (if on_old_side(l.origin) { next_line_no(old) } else { old }) == counted(
                h.old_start,
                old_before(h.lines, h.lines.len() as int),
            )
            &&& (if on_new_side(l.origin) { next_line_no(new) } else { new }) == counted(
                h.new_start,
                new_before(h.lines, h.lines.len() as int),
            )
        }),
{
    let g = with_line(f, l);
    let last = f.hunks.len() - 1;
    let h0 = f.hunks[last];
    let h1 = g.hunks[last];
    assert(h1.lines == h0.lines.push(l));
    lemma_before_push(h0.lines, l, h0.lines.len() as int);
    assert(hunk_counted(h0));
    assert(hunk_counted(h1)) by {
        assert forall|i: int| 0 <= i < h1.lines.len() implies {
            &&& on_old_side((#[trigger] h1.lines[i]).origin) ==> h1.lines[i].old_lineno == Some(
                counted(h1.old_start, old_before(h1.lines, i)),
            )
            &&& on_new_side(h1.lines[i].origin) ==> h1.lines[i].new_lineno == Some(
                counted(h1.new_start, new_before(h1.lines, i)),
            )
        } by {
            lemma_before_push(h0.lines, l, i);
            if i < h0.lines.len() {
                assert(h1.lines[i] == h0.lines[i]);
            }
        }
    }
    assert forall|h: int| 0 <= h < g.hunks.len() implies hunk_counted(#[trigger] g.hunks[h]) by {
        if h != last {
            assert(g.hunks[h] == f.hunks[h]);
        }
    }
    let n = h0.lines.len() as int;
    assert(old_before(h1.lines, n + 1) == old_before(h1.lines, n) + if on_old_side(l.origin) {
        1nat
    } else {
        0nat
    });
    assert(new_before(h1.lines, n + 1) == new_before(h1.lines, n) + if on_new_side(l.origin) {
        1nat
    } else {
        0nat
    });
    assert(counted(h1.old_start, old_before(h1.lines, n) + 1) == next_line_no(counted(h1.old_start, old_before(h1.lines, n))));
    assert(counted(h1.new_start, new_before(h1.lines, n) + 1) == next_line_no(counted(h1.new_start, new_before(h1.lines, n))));
}

#[verifier::spinoff_prover]
proof fn lemma_step_counted(acc: DiffAcc, line: Seq<char>)
    requires
        acc_counted(acc),
    ensures
        acc_counted(diff_step(acc, line)),
{
    let r = diff_step(acc, line);
    if starts_with(line, "diff --git "@) {
        assert forall|k: int| 0 <= k < r.files.len() implies file_counted(#[trigger] r.files[k]) by {
            if k < acc.files.len() {
                assert(r.files[k] == acc.files[k]);
            }
        }
        let nf = r.cur->0;
        assert(nf.hunks.len() == 0);
    } else {
        match acc.cur {
            None => {},
            Some(f) => {
                if starts_with(line, "Binary files "@) {
                } else if starts_with(line, "new file mode"@) || starts_with(line, "deleted file mode"@)
                    || starts_with(line, "rename "@) {
                } else if starts_with(line, "+++ b/"@) {
                } else if starts_with(line, "@@ "@) {
                    let g = r.cur->0;
                    assert forall|h: int| 0 <= h < g.hunks.len() implies hunk_counted(#[trigger] g.hunks[h]) by {
                        if h < f.hunks.len() {
                            assert(g.hunks[h] == f.hunks[h]);
                        }
                    }
                } else if f.hunks.len() > 0 && line.len() > 0 && line[0] == '+' {
                    lemma_with_line_counted(
                        f,
                        body_line(DiffOrigin::Add, line.skip(1), None, Some(acc.new)),
                        acc.old,
                        acc.new,
                    );
                } else if f.hunks.len() > 0 && line.len() > 0 && line[0] == '-' {
                    lemma_with_line_counted(
                        f,
                        body_line(DiffOrigin::Delete, line.skip(1), Some(acc.old), None),
                        acc.old,
                        acc.new,
                    );
                } else if f.hunks.len() > 0 && line.len() > 0 && line[0] == ' ' {
                    lemma_with_line_counted(
                        f,
                        body_line(DiffOrigin::Context, line.skip(1), Some(acc.old), Some(acc.new)),
                        acc.old,
                        acc.new,
                    );
                }
            },
        }
    }
}

proof fn lemma_fold_counted(ls: Seq<Seq<char>>)
    ensures
        acc_counted(diff_fold(ls)),
    decreases ls.len(),
{
    if ls.len() > 0 {
        lemma_fold_counted(ls.drop_last());
        lemma_step_counted(diff_fold(ls.drop_last()), ls.last());
    }
}

/// Every line of every parsed hunk is numbered by counting from its hunk's
/// start: on each side it carries, the start of that side plus the lines
/// before it that belong to that side.
pub proof fn lemma_parsed_lines_counted(text: Seq<char>)
    ensures
        forall|k: int| 0 <= k < unified_diff(text).len() ==> file_counted(#[trigger] unified_diff(text)[k]),
{
    let acc = diff_fold(lines(text));
    lemma_fold_counted(lines(text));
    assert forall|k: int| 0 <= k < unified_diff(text).len() implies file_counted(#[trigger] unified_diff(text)[k]) by {
        if k < acc.files.len() {
            assert(unified_diff(text)[k] == acc.files[k]);
        }
    }
}

/// How many of the lines open a file's block (`diff --git ...`).
pub open spec fn file_headers(ls: Seq<Seq<char>>) -> nat
    decreases ls.len(),
{
    if ls.len() == 0 {
        0
    } else {
        file_headers(ls.drop_last()) + if starts_with(ls.last(), "diff --git "@) {
            1nat
        } else {
            0nat
        }
    }
}

proof fn lemma_fold_files(ls: Seq<Seq<char>>)
    ensures
        diff_fold(ls).files.len() + (if diff_fold(ls).cur is Some { 1nat } else { 0nat }) == file_headers(ls),
        diff_fold(ls).cur is None ==> diff_fold(ls).files.len() == 0,
    decreases ls.len(),
{
    if ls.len() > 0 {
        lemma_fold_files(ls.drop_last());
    }
}

/// A unified diff holds one file per `diff --git ` line; lines before the
/// first such line belong to no file.
pub proof fn lemma_one_file_per_header(text: Seq<char>)
    ensures
        unified_diff(text).len() == file_headers(lines(text)),
{
    lemma_fold_files(lines(text));
}

/// A header line of a file's block that sets its status, and the status it
/// sets: `new file mode` added, `deleted file mode` deleted, `rename ` renamed.
pub open spec fn header_gives(line: Seq<char>, st: DiffStatus) -> bool {
    ||| starts_with(line, "new file mode"@) && st == DiffStatus::Added
    ||| starts_with(line, "deleted file mode"@) && st == DiffStatus::Deleted
    ||| starts_with(line, "rename "@) && st == DiffStatus::Renamed
}

/// A line that neither opens a file's block nor sets its status.
pub open spec fn keeps_status(line: Seq<char>) -> bool {
    &&& !starts_with(line, "diff --git "@)
    &&& !starts_with(line, "new file mode"@)
    &&& !starts_with(line, "deleted file mode"@)
    &&& !starts_with(line, "rename "@)
}

proof fn lemma_prefix_char(line: Seq<char>, p: Seq<char>, i: int)
    requires
        starts_with(line, p),
        0 <= i < p.len(),
    ensures
        line[i] == p[i],
{
    assert(line.take(p.len() as int)[i] == p[i]);
}

/// A status header read inside a file's block sets that file's status and
/// changes nothing else.
pub proof fn lemma_status_header(acc: DiffAcc, line: Seq<char>, st: DiffStatus)
    requires
        acc.cur is Some,
        header_gives(line, st),
    ensures
        diff_step(acc, line) == (DiffAcc { cur: Some(FileDiffView { status: st, ..acc.cur->0 }), ..acc }),
{
    reveal_strlit("diff --git ");
    reveal_strlit("Binary files ");
    reveal_strlit("new file mode");
    reveal_strlit("deleted file mode");
    reveal_strlit("rename ");
    if starts_with(line, "new file mode"@) {
        lemma_prefix_char(line, "new file mode"@, 0);
        if starts_with(line, "diff --git "@) {
            lemma_prefix_char(line, "diff --git "@, 0);
        }
        if starts_with(line, "Binary files "@) {
            lemma_prefix_char(line, "Binary files "@, 0);
        }
        if starts_with(line, "deleted file mode"@) {
            lemma_prefix_char(line, "deleted file mode"@, 0);
        }
        if starts_with(line, "rename "@) {
            lemma_prefix_char(line, "rename "@, 0);
        }
    } else if starts_with(line, "deleted file mode"@) {
        lemma_prefix_char(line, "deleted file mode"@, 0);
        lemma_prefix_char(line, "deleted file mode"@, 1);
        if starts_with(line, "diff --git "@) {
            lemma_prefix_char(line, "diff --git "@, 1);
        }
        if starts_with(line, "Binary files "@) {
            lemma_prefix_char(line, "Binary files "@, 0);
        }
    } else {
        lemma_prefix_char(line, "rename "@, 0);
        if starts_with(line, "diff --git "@) {
            lemma_prefix_char(line, "diff --git "@, 0);
        }
        if starts_with(line, "Binary files "@) {
            lemma_prefix_char(line, "Binary files "@, 0);
        }
    }
}

/// A line that neither opens a block nor sets a status leaves the file being
/// read in place, with its status, and the files read before it.
proof fn lemma_status_kept(acc: DiffAcc, line: Seq<char>)
    requires
        acc.cur is Some,
        keeps_status(line),
    ensures
        diff_step(acc, line).cur is Some,
        diff_step(acc, line).cur->0.status == acc.cur->0.status,
        diff_step(acc, line).files == acc.files,
{
}

proof fn lemma_fold_take(ls: Seq<Seq<char>>, k: int)
    requires
        0 < k <= ls.len(),
    ensures
        diff_fold(ls.take(k)) == diff_step(diff_fold(ls.take(k - 1)), ls[k - 1]),
{
    assert(ls.take(k).drop_last() =~= ls.take(k - 1));
    assert(ls.take(k).last() == ls[k - 1]);
}

/// The files read never change once read: later lines only add files.
proof fn lemma_files_kept(ls: Seq<Seq<char>>, a: int, b: int)
    requires
        0 <= a <= b <= ls.len(),
    ensures
        diff_fold(ls.take(a)).files.len() <= diff_fold(ls.take(b)).files.len(),
        forall|m: int|
            0 <= m < diff_fold(ls.take(a)).files.len() ==> #[trigger] diff_fold(ls.take(b)).files[m] == diff_fold(
                ls.take(a),
            ).files[m],
    decreases b - a,
{
    if a < b {
        lemma_files_kept(ls, a, b - 1);
        lemma_fold_take(ls, b);
        let x = diff_fold(ls.take(b - 1));
        let y = diff_fold(ls.take(b));
        assert forall|m: int| 0 <= m < diff_fold(ls.take(a)).files.len() implies #[trigger] y.files[m]
            == diff_fold(ls.take(a)).files[m] by {
            assert(x.files[m] == diff_fold(ls.take(a)).files[m]);
            if y.files.len() > x.files.len() {
                assert(y.files == x.files.push(x.cur->0));
            }
        }
    }
}

proof fn lemma_block_runs(ls: Seq<Seq<char>>, i: int, k: int, st: DiffStatus)
    requires
        0 <= i < k <= ls.len(),
        header_gives(ls[i], st),
        diff_fold(ls.take(i)).cur is Some,
        forall|j: int| i < j < k ==> keeps_status(#[trigger] ls[j]),
    ensures
        diff_fold(ls.take(k)).cur is Some,
        diff_fold(ls.take(k)).cur->0.status == st,
        diff_fold(ls.take(k)).files == diff_fold(ls.take(i)).files,
    decreases k - i,
{
    lemma_fold_take(ls, k);
    if k == i + 1 {
        lemma_status_header(diff_fold(ls.take(i)), ls[i], st);
    } else {
        lemma_block_runs(ls, i, k - 1, st);
        lemma_status_kept(diff_fold(ls.take(k - 1)), ls[k - 1]);
    }
}

/// A file's status is set by the last status header of its block: when a
/// `new file mode`, `deleted file mode` or `rename ` line is read inside a
/// file's block and no later line of the block opens a new block or sets a
/// status again, the file the block describes has the status that line sets.
/// The block ends at the next `diff --git ` line or at the end of the text.
pub proof fn lemma_block_status(text: Seq<char>, i: int, k: int, st: DiffStatus)
    requires
        0 <= i < k <= lines(text).len(),
        header_gives(lines(text)[i], st),
        diff_fold(lines(text).take(i)).cur is Some,
        forall|j: int| i < j < k ==> keeps_status(#[trigger] lines(text)[j]),
        k == lines(text).len() || starts_with(lines(text)[k], "diff --git "@),
    ensures
        diff_fold(lines(text).take(i)).files.len() < unified_diff(text).len(),
        unified_diff(text)[diff_fold(lines(text).take(i)).files.len() as int].status == st,
{
    let ls = lines(text);
    let n = diff_fold(ls.take(i)).files.len() as int;
    lemma_block_runs(ls, i, k, st);
    let at_k = diff_fold(ls.take(k));
    if k == ls.len() {
        assert(ls.take(k) =~= ls);
        assert(unified_diff(text) == at_k.files.push(at_k.cur->0));
    } else {
        reveal_strlit("diff --git ");
        lemma_fold_take(ls, k + 1);
        let next = diff_fold(ls.take(k + 1));
        assert(next.files == at_k.files.push(at_k.cur->0));
        lemma_files_kept(ls, k + 1, ls.len() as int);
        assert(ls.take(ls.len() as int) =~= ls);
        let end = diff_fold(ls);
        assert(end.files[n] == next.files[n]);
        assert(unified_diff(text)[n] == end.files[n]) by {
            if end.cur is Some {
                assert(unified_diff(text) == end.files.push(end.cur->0));
            }
        }
    }
}

/// Counting on without passing `u32::MAX` is adding.
pub proof fn lemma_counted_adds(s: u32, n: nat)
    requires
        s + n <= u32::MAX,
    ensures
        counted(s, n) == s + n,
    decreases n,
{
    if n > 0 {
        lemma_counted_adds(s, (n - 1) as nat);
    }
}

fn wrap_inc(n: u32) -> (r: u32)
    ensures
        r == next_line_no(n),
{
    if n == u32::MAX {
        0
    } else {
        n + 1
    }
}

fn body_line_of(origin: DiffOrigin, line: &[char], old_no: Option<u32>, new_no: Option<u32>) -> (r: DiffLine)
    requires
        line@.len() > 0,
    ensures
        r@ == body_line(origin, line@.skip(1), old_no, new_no),
{
    let mut c = slice_of(line, 1, line.len());
    c.push('\n');
    assert(c@ =~= line@.skip(1).push('\n'));
    let r = DiffLine {
        origin,
        content: string_of(&c),
        old_lineno: old_no,
        new_lineno: new_no,
        spans: Vec::new(),
    };
    assert(r@.spans =~= Seq::<(u32, u32, Seq<char>, bool)>::empty());
    r
}

fn push_line_to_last_hunk(f: &mut FileDiff, l: DiffLine)
    requires
        old(f).hunks@.len() > 0,
    ensures
        final(f)@ == with_line(old(f)@, l@),
{
    let ghost hv = hunk_views(old(f).hunks@);
    let mut h = f.hunks.pop().unwrap();
    assert(h@ == hv.last());
    let ghost lv = line_views(h.lines@);
    h.lines.push(l);
    assert(line_views(h.lines@) =~= lv.push(l@));
    f.hunks.push(h);
    assert(hunk_views(f.hunks@) =~= hv.update(hv.len() - 1, DiffHunkView { lines: lv.push(l@), ..hv.last() }));
}

/// Parses `git diff` output into per-file hunks with line numbers.
pub fn parse_unified_diff(text: &str) -> (r: Vec<FileDiff>)
    ensures
        file_views(r@) == unified_diff(text@),
{
    proof {
        reveal_strlit("diff --git ");
        reveal_strlit("Binary files ");
        reveal_strlit("new file mode");
        reveal_strlit("deleted file mode");
        reveal_strlit("rename ");
        reveal_strlit("+++ b/");
        reveal_strlit("@@ ");
    }
    let cs = chars_of(text);
    let ls = lines_of(&cs);
    let ghost all = views(ls@);
    let mut files: Vec<FileDiff> = Vec::new();
    let mut has_cur = false;
    let mut cur = FileDiff { path: String::new(), status: DiffStatus::Modified, is_binary: false, hunks: Vec::new() };
    let mut old_no: u32 = 0;
    let mut new_no: u32 = 0;
    assert(file_views(files@) =~= Seq::<FileDiffView>::empty());
    for i in 0..ls.len()
        invariant
            all == views(ls@),
            all == lines(text@),
            ({
                let acc = diff_fold(all.take(i as int));
                &&& file_views(files@) == acc.files
                &&& (has_cur <==> acc.cur is Some)
                &&& (has_cur ==> acc.cur == Some(cur@))
                &&& old_no == acc.old
                &&& new_no == acc.new
            }),
    {
        let line = &ls[i];
        let ghost acc = diff_fold(all.take(i as int));
        proof {
            reveal_strlit("diff --git ");
            reveal_strlit("Binary files ");
            reveal_strlit("new file mode");
            reveal_strlit("deleted file mode");
            reveal_strlit("rename ");
            reveal_strlit("+++ b/");
            reveal_strlit("@@ ");
            assert(all.take(i + 1).drop_last() =~= all.take(i as int));
            assert(all.take(i + 1).last() == line@);
        }
        if has_prefix_str(line, "diff --git ") {
            let path = header_path_of(line);
            let fresh = FileDiff {
                path: string_of(&path),
                status: DiffStatus::Modified,
                is_binary: false,
                hunks: Vec::new(),
            };
            assert(fresh@.hunks =~= Seq::<DiffHunkView>::empty());
            if has_cur {
                let ghost fv = file_views(files@);
                let mut done = fresh;
                std::mem::swap(&mut cur, &mut done);
                files.push(done);
                assert(file_views(files@) =~= fv.push(acc.cur->0));
            } else {
                cur = fresh;
            }
            has_cur = true;
        } else if !has_cur {
        } else if has_prefix_str(line, "Binary files ") {
            cur.is_binary = true;
        } else if has_prefix_str(line, "new file mode") || has_prefix_str(line, "deleted file mode")
            || has_prefix_str(line, "rename ") {
            cur.status = diff_status_from_header(line);
        } else if has_prefix_str(line, "+++ b/") {
            let p = slice_of(line, 6, line.len());
            assert(p@ =~= line@.skip(6));
            cur.path = string_of(&p);
        } else if has_prefix_str(line, "@@ ") {
            let (os, ol, ns, nl) = parse_hunk_header(line);
            let mut hdr = crate::text::copy_chars(line);
            hdr.push('\n');
            let h = DiffHunk {
                header: string_of(&hdr),
                old_start: os,
                old_lines: ol,
                new_start: ns,
                new_lines: nl,
                lines: Vec::new(),
            };
            assert(h@.lines =~= Seq::<DiffLineView>::empty());
            let ghost hv = hunk_views(cur.hunks@);
            cur.hunks.push(h);
            assert(hunk_views(cur.hunks@) =~= hv.push(h@));
            old_no = os;
            new_no = ns;
        } else if cur.hunks.len() > 0 && line.len() > 0 && line[0] == '+' {
            let l = body_line_of(DiffOrigin::Add, line, None, Some(new_no));
            push_line_to_last_hunk(&mut cur, l);
            new_no = wrap_inc(new_no);
        } else if cur.hunks.len() > 0 && line.len() > 0 && line[0] == '-' {
            let l = body_line_of(DiffOrigin::Delete, line, Some(old_no), None);
            push_line_to_last_hunk(&mut cur, l);
            old_no = wrap_inc(old_no);
        } else if cur.hunks.len() > 0 && line.len() > 0 && line[0] == ' ' {
            let l = body_line_of(DiffOrigin::Context, line, Some(old_no), Some(new_no));
            push_line_to_last_hunk(&mut cur, l);
            old_no = wrap_inc(old_no);
            new_no = wrap_inc(new_no);
        }
    }
    assert(all.take(all.len() as int) =~= all);
    if has_cur {
        let ghost fv = file_views(files@);
        files.push(cur);
        assert(file_views(files@) =~= fv.push(cur@));
    }
    files
}

// ---------------------------------------------------------------------------
// Lane layout for histories read from `git log`
// ---------------------------------------------------------------------------

/// Lane occupants, columns reserved for not-yet-seen parents (first match
/// wins), and the widest the lanes have been.
pub struct LaneAcc {
    pub lanes: Seq<Option<Seq<char>>>,
    pub pending: Seq<(Seq<char>, usize)>,
    pub max: nat,
}

/// Index of the first reservation for `k`.
pub open spec fn key_index(p: Seq<(Seq<char>, usize)>, k: Seq<char>) -> Option<int>
    decreases p.len(),
{
    if p.len() == 0 {
        None
    } else {
        match key_index(p.drop_last(), k) {
            Some(i) => Some(i),
            None => if p.last().0 == k {
                Some(p.len() - 1)
            } else {
                None
            },
        }
    }
}

pub proof fn lemma_key_index(p: Seq<(Seq<char>, usize)>, k: Seq<char>)
    ensures
        key_index(p, k) matches Some(i) ==> 0 <= i < p.len() && p[i].0 == k && forall|j: int|
            0 <= j < i ==> p[j].0 != k,
        key_index(p, k) is None ==> forall|j: int| 0 <= j < p.len() ==> p[j].0 != k,
    decreases p.len(),
{
    if p.len() > 0 {
        lemma_key_index(p.drop_last(), k);
        assert forall|j: int| 0 <= j < p.len() - 1 implies p.drop_last()[j] == p[j] by {}
    }
}

pub proof fn lemma_key_index_at(p: Seq<(Seq<char>, usize)>, k: Seq<char>, i: int)
    requires
        0 <= i < p.len(),
        p[i].0 == k,
        forall|j: int| 0 <= j < i ==> p[j].0 != k,
    ensures
        key_index(p, k) == Some(i),
    decreases p.len(),
{
    lemma_key_index(p, k);
    if i < p.len() - 1 {
        lemma_key_index_at(p.drop_last(), k, i);
    } else {
        lemma_key_index(p.drop_last(), k);
    }
}

/// The column reserved for `k`.
pub open spec fn pending_get(p: Seq<(Seq<char>, usize)>, k: Seq<char>) -> Option<usize> {
    match key_index(p, k) {
        Some(i) => Some(p[i].1),
        None => None,
    }
}

/// The reservations without the first one for `k`.
pub open spec fn pending_remove(p: Seq<(Seq<char>, usize)>, k: Seq<char>) -> Seq<(Seq<char>, usize)> {
    match key_index(p, k) {
        Some(i) => p.remove(i),
        None => p,
    }
}

/// The first free lane.
pub open spec fn first_free(lanes: Seq<Option<Seq<char>>>) -> Option<int>
    decreases lanes.len(),
{
    if lanes.len() == 0 {
        None
    } else {
        match first_free(lanes.drop_last()) {
            Some(i) => Some(i),
            None => if lanes.last() is None {
                Some(lanes.len() - 1)
            } else {
                None
            },
        }
    }
}

pub proof fn lemma_first_free(lanes: Seq<Option<Seq<char>>>)
    ensures
        first_free(lanes) matches Some(i) ==> 0 <= i < lanes.len() && lanes[i] is None && forall|j: int|
            0 <= j < i ==> lanes[j] is Some,
        first_free(lanes) is None ==> forall|j: int| 0 <= j < lanes.len() ==> lanes[j] is Some,
    decreases lanes.len(),
{
    if lanes.len() > 0 {
        lemma_first_free(lanes.drop_last());
        assert forall|j: int| 0 <= j < lanes.len() - 1 implies lanes.drop_last()[j] == lanes[j] by {}
    }
}

pub proof fn lemma_first_free_at(lanes: Seq<Option<Seq<char>>>, i: int)
    requires
        0 <= i < lanes.len(),
        lanes[i] is None,
        forall|j: int| 0 <= j < i ==> lanes[j] is Some,
    ensures
        first_free(lanes) == Some(i),
    decreases lanes.len(),
{
    lemma_first_free(lanes);
    if i < lanes.len() - 1 {
        lemma_first_free_at(lanes.drop_last(), i);
    } else {
        lemma_first_free(lanes.drop_last());
    }
}

/// A free lane: the first empty one, else a new lane at the end.
pub open spec fn claim_free(lanes: Seq<Option<Seq<char>>>) -> (int, Seq<Option<Seq<char>>>) {
    match first_free(lanes) {
        Some(i) => (i, lanes),
        None => (lanes.len() as int, lanes.push(None)),
    }
}

/// The lanes extended with empty ones so that `col` exists.
pub open spec fn grow(lanes: Seq<Option<Seq<char>>>, col: int) -> Seq<Option<Seq<char>>> {
    if col < lanes.len() {
        lanes
    } else {
        lanes + Seq::new((col + 1 - lanes.len()) as nat, |i: int| None::<Seq<char>>)
    }
}

/// Straight pass-through edges for the occupied lanes among the first `k`,
/// other than `col`.
pub open spec fn pass_edges(lanes: Seq<Option<Seq<char>>>, col: int, k: int) -> Seq<EdgeRow>
    decreases k,
{
    if k <= 0 {
        Seq::empty()
    } else {
        let prev = pass_edges(lanes, col, k - 1);
        let o = k - 1;
        if o != col && lanes[o] is Some {
            prev.push((o as usize, o as usize, EdgeType::Straight, o as usize, false))
        } else {
            prev
        }
    }
}

/// Edge shape from a commit's column to a parent's column.
pub open spec fn edge_kind(from: int, to: int) -> EdgeType {
    if to == from {
        EdgeType::Straight
    } else if to < from {
        EdgeType::MergeLeft
    } else {
        EdgeType::MergeRight
    }
}

pub open spec fn max_nat(a: nat, b: nat) -> nat {
    if a >= b {
        a
    } else {
        b
    }
}

/// Places the parents of a commit sitting in `col`: the first parent continues
/// the column, the others reuse a reserved column or claim a free one.
pub open spec fn parent_steps(acc: LaneAcc, col: int, parents: Seq<Seq<char>>) -> (LaneAcc, Seq<EdgeRow>)
    decreases parents.len(),
{
    if parents.len() == 0 {
        (acc, Seq::empty())
    } else {
        let (a, es) = parent_steps(acc, col, parents.drop_last());
        let idx = parents.len() - 1;
        let p = parents.last();
        let (pc, lanes1) = if idx == 0 {
            (col, a.lanes)
        } else {
            match pending_get(a.pending, p) {
                Some(c) => (c as int, a.lanes),
                None => claim_free(a.lanes),
            }
        };
        let pending1 = if pending_get(a.pending, p) is Some {
            a.pending
        } else {
            a.pending.push((p, pc as usize))
        };
        let lanes2 = grow(lanes1, pc).update(pc, Some(p));
        (
            LaneAcc { lanes: lanes2, pending: pending1, max: max_nat(a.max, lanes2.len()) },
            es.push((col as usize, pc as usize, edge_kind(col, pc), pc as usize, false)),
        )
    }
}

/// Lays out one commit: its column, the state after it, and its edges.
pub open spec fn commit_step(acc: LaneAcc, oid: Seq<char>, parents: Seq<Seq<char>>) -> (LaneAcc, int, Seq<EdgeRow>) {
    let (col, pending0, lanes0) = match pending_get(acc.pending, oid) {
        Some(c) => (c as int, pending_remove(acc.pending, oid), acc.lanes),
        None => {
            let (c, l) = claim_free(acc.lanes);
            (c, acc.pending, l)
        },
    };
    let lanes1 = grow(lanes0, col);
    let max1 = max_nat(acc.max, lanes1.len());
    let pe = pass_edges(lanes1, col, lanes1.len() as int);
    let lanes2 = lanes1.update(col, None);
    let (a2, es) = parent_steps(LaneAcc { lanes: lanes2, pending: pending0, max: max1 }, col, parents);
    (a2, col, pe + es)
}

/// Lays out commits in order: the final state and each commit's column and
/// edges.
pub open spec fn layout(commits: Seq<(Seq<char>, Seq<Seq<char>>)>) -> (LaneAcc, Seq<(int, Seq<EdgeRow>)>)
    decreases commits.len(),
{
    if commits.len() == 0 {
        (LaneAcc { lanes: Seq::empty(), pending: Seq::empty(), max: 0 }, Seq::empty())
    } else {
        let (acc, rows) = layout(commits.drop_last());
        let (a2, col, es) = commit_step(acc, commits.last().0, commits.last().1);
        (a2, rows.push((col, es)))
    }
}

pub proof fn lemma_layout_len(commits: Seq<(Seq<char>, Seq<Seq<char>>)>)
    ensures
        layout(commits).1.len() == commits.len(),
    decreases commits.len(),
{
    if commits.len() > 0 {
        lemma_layout_len(commits.drop_last());
    }
}

proof fn lemma_parent_steps_max(acc: LaneAcc, col: int, parents: Seq<Seq<char>>)
    ensures
        parent_steps(acc, col, parents).0.max >= acc.max,
    decreases parents.len(),
{
    if parents.len() > 0 {
        lemma_parent_steps_max(acc, col, parents.drop_last());
    }
}

proof fn lemma_commit_step_column(acc: LaneAcc, oid: Seq<char>, parents: Seq<Seq<char>>)
    ensures
        0 <= commit_step(acc, oid, parents).1 < commit_step(acc, oid, parents).0.max,
        commit_step(acc, oid, parents).0.max >= acc.max,
{
    lemma_first_free(acc.lanes);
    let (col, pending0, lanes0) = match pending_get(acc.pending, oid) {
        Some(c) => (c as int, pending_remove(acc.pending, oid), acc.lanes),
        None => {
            let (c, l) = claim_free(acc.lanes);
            (c, acc.pending, l)
        },
    };
    let lanes1 = grow(lanes0, col);
    assert(col < lanes1.len());
    let max1 = max_nat(acc.max, lanes1.len());
    let lanes2 = lanes1.update(col, None);
    lemma_parent_steps_max(LaneAcc { lanes: lanes2, pending: pending0, max: max1 }, col, parents);
}

/// Every commit of the layout sits in a column below the number of columns
/// the layout reports.
pub proof fn lemma_lanes_within(commits: Seq<(Seq<char>, Seq<Seq<char>>)>)
    ensures
        layout(commits).1.len() == commits.len(),
        forall|i: int|
            0 <= i < commits.len() ==> 0 <= #[trigger] layout(commits).1[i].0 < max_nat(
                layout(commits).0.max,
                1,
            ),
    decreases commits.len(),
{
    lemma_layout_len(commits);
    if commits.len() > 0 {
        let d = commits.drop_last();
        lemma_lanes_within(d);
        let (acc, rows) = layout(d);
        lemma_commit_step_column(acc, commits.last().0, commits.last().1);
        assert forall|i: int| 0 <= i < commits.len() implies 0 <= #[trigger] layout(commits).1[i].0 < max_nat(
            layout(commits).0.max,
            1,
        ) by {
            if i < d.len() {
                assert(layout(commits).1[i] == rows[i]);
            }
        }
    }
}

/// The edges of a row whose commit sits in `col` and has `n` parents: first
/// straight pass-through edges of other occupied lanes (`from == to != col`),
/// then one edge per parent, in order, from `col`, shaped by where it lands
/// (straight, merging left or right); the first parent's edge stays in `col`.
pub open spec fn row_edges_shaped(col: int, es: Seq<EdgeRow>, n: int) -> bool {
    &&& 0 <= n <= es.len()
    &&& forall|j: int|
        0 <= j < es.len() - n ==> (#[trigger] es[j]).0 == es[j].1 && es[j].0 != col && es[j].2
            == EdgeType::Straight
    &&& forall|j: int|
        es.len() - n <= j < es.len() ==> (#[trigger] es[j]).0 == col && es[j].2 == edge_kind(
            col,
            es[j].1 as int,
        )
    &&& n > 0 ==> es[es.len() - n].1 == col
}

proof fn lemma_pass_edges_shaped(lanes: Seq<Option<Seq<char>>>, col: int, k: int)
    requires
        0 <= k <= lanes.len(),
        lanes.len() <= usize::MAX,
    ensures
        forall|j: int|
            0 <= j < pass_edges(lanes, col, k).len() ==> {
                let e = #[trigger] pass_edges(lanes, col, k)[j];
                &&& e.0 == e.1
                &&& e.0 != col
                &&& e.2 == EdgeType::Straight
            },
    decreases k,
{
    if k > 0 {
        lemma_pass_edges_shaped(lanes, col, k - 1);
    }
}

proof fn lemma_parent_steps_shaped(acc: LaneAcc, col: int, parents: Seq<Seq<char>>)
    requires
        0 <= col < acc.lanes.len(),
        acc.lanes.len() <= acc.max,
    ensures
        ({
            let (a, es) = parent_steps(acc, col, parents);
            &&& es.len() == parents.len()
            &&& a.max >= acc.max
            &&& a.max <= usize::MAX ==> forall|j: int|
                0 <= j < es.len() ==> (#[trigger] es[j]).0 == col && es[j].2 == edge_kind(col, es[j].1 as int)
            &&& a.max <= usize::MAX && es.len() > 0 ==> es[0].1 == col
        }),
    decreases parents.len(),
{
    if parents.len() > 0 {
        let (a, es) = parent_steps(acc, col, parents.drop_last());
        lemma_parent_steps_shaped(acc, col, parents.drop_last());
        lemma_first_free(a.lanes);
        let idx = parents.len() - 1;
        let p = parents.last();
        let (pc, lanes1) = if idx == 0 {
            (col, a.lanes)
        } else {
            match pending_get(a.pending, p) {
                Some(c) => (c as int, a.lanes),
                None => claim_free(a.lanes),
            }
        };
        let lanes2 = grow(lanes1, pc).update(pc, Some(p));
        assert(0 <= pc < lanes2.len());
        let (a3, es3) = parent_steps(acc, col, parents);
        assert(es3 == es.push((col as usize, pc as usize, edge_kind(col, pc), pc as usize, false)));
        assert(a3.max == max_nat(a.max, lanes2.len()));
        if a3.max <= usize::MAX {
            assert(pc as usize as int == pc);
            assert forall|j: int| 0 <= j < es3.len() implies (#[trigger] es3[j]).0 == col && es3[j].2
                == edge_kind(col, es3[j].1 as int) by {
                if j < es.len() {
                    assert(es3[j] == es[j]);
                }
            }
            if es.len() > 0 {
                assert(es3[0] == es[0]);
            }
        }
    }
}

proof fn lemma_commit_step_shaped(acc: LaneAcc, oid: Seq<char>, parents: Seq<Seq<char>>)
    ensures
        commit_step(acc, oid, parents).0.max >= acc.max,
        commit_step(acc, oid, parents).0.max <= usize::MAX ==> row_edges_shaped(
            commit_step(acc, oid, parents).1,
            commit_step(acc, oid, parents).2,
            parents.len() as int,
        ),
{
    lemma_commit_step_column(acc, oid, parents);
    lemma_first_free(acc.lanes);
    let (col, pending0, lanes0) = match pending_get(acc.pending, oid) {
        Some(c) => (c as int, pending_remove(acc.pending, oid), acc.lanes),
        None => {
            let (c, l) = claim_free(acc.lanes);
            (c, acc.pending, l)
        },
    };
    let lanes1 = grow(lanes0, col);
    let max1 = max_nat(acc.max, lanes1.len());
    let pe = pass_edges(lanes1, col, lanes1.len() as int);
    let lanes2 = lanes1.update(col, None);
    let start = LaneAcc { lanes: lanes2, pending: pending0, max: max1 };
    lemma_parent_steps_shaped(start, col, parents);
    let (a2, ps) = parent_steps(start, col, parents);
    let es = pe + ps;
    assert(commit_step(acc, oid, parents) == (a2, col, es));
    if a2.max <= usize::MAX {
        lemma_pass_edges_shaped(lanes1, col, lanes1.len() as int);
        assert(es.len() - parents.len() == pe.len());
        assert forall|j: int| 0 <= j < es.len() - parents.len() implies (#[trigger] es[j]).0 == es[j].1 && es[j].0
            != col && es[j].2 == EdgeType::Straight by {
            assert(es[j] == pe[j]);
        }
        assert forall|j: int| es.len() - parents.len() <= j < es.len() implies (#[trigger] es[j]).0 == col
            && es[j].2 == edge_kind(col, es[j].1 as int) by {
            assert(es[j] == ps[j - pe.len()]);
        }
        if parents.len() > 0 {
            assert(es[es.len() - parents.len()] == ps[0]);
        }
    }
}

/// The edges of every row of a layout are shaped as `row_edges_shaped` says,
/// when the layout's width fits a `usize` (the columns are `usize`s).
pub proof fn lemma_layout_edges_shaped(commits: Seq<(Seq<char>, Seq<Seq<char>>)>)
    requires
        layout(commits).0.max <= usize::MAX,
    ensures
        layout(commits).1.len() == commits.len(),
        forall|i: int|
            0 <= i < commits.len() ==> row_edges_shaped(
                (#[trigger] layout(commits).1[i]).0,
                layout(commits).1[i].1,
                commits[i].1.len() as int,
            ),
    decreases commits.len(),
{
    lemma_layout_len(commits);
    if commits.len() > 0 {
        let d = commits.drop_last();
        let (acc, rows) = layout(d);
        lemma_commit_step_shaped(acc, commits.last().0, commits.last().1);
        lemma_layout_edges_shaped(d);
        assert forall|i: int| 0 <= i < commits.len() implies row_edges_shaped(
            (#[trigger] layout(commits).1[i]).0,
            layout(commits).1[i].1,
            commits[i].1.len() as int,
        ) by {
            if i < d.len() {
                assert(layout(commits).1[i] == rows[i]);
                assert(commits[i] == d[i]);
            }
        }
    }
}

/// The oid and parent oids of each commit.
pub open spec fn commit_keys(commits: Seq<GraphCommit>) -> Seq<(Seq<char>, Seq<Seq<char>>)> {
    commits.map_values(|c: GraphCommit| (c.oid@, string_views(c.parent_oids@)))
}

pub open spec fn lane_views(lanes: Seq<Option<Vec<char>>>) -> Seq<Option<Seq<char>>> {
    lanes.map_values(
        |o: Option<Vec<char>>|
            match o {
                Some(v) => Some(v@),
                None => None,
            },
    )
}

pub open spec fn pending_views(p: Seq<(Vec<char>, usize)>) -> Seq<(Seq<char>, usize)> {
    p.map_values(|e: (Vec<char>, usize)| (e.0@, e.1))
}

fn find_pending(pending: &Vec<(Vec<char>, usize)>, key: &[char]) -> (r: Option<usize>)
    ensures
        match r {
            Some(i) => key_index(pending_views(pending@), key@) == Some(i as int),
            None => key_index(pending_views(pending@), key@) is None,
        },
{
    let ghost pv = pending_views(pending@);
    for i in 0..pending.len()
        invariant
            pv == pending_views(pending@),
            forall|j: int| 0 <= j < i ==> pv[j].0 != key@,
    {
        if crate::text::chars_eq(&pending[i].0, key) {
            proof {
                lemma_key_index_at(pv, key@, i as int);
            }
            return Some(i);
        }
    }
    proof {
        lemma_key_index(pv, key@);
    }
    None
}

fn find_free_column(lanes: &mut Vec<Option<Vec<char>>>) -> (c: usize)
    ensures
        (c as int, lane_views(final(lanes)@)) == claim_free(lane_views(old(lanes)@)),
{
    let ghost lv = lane_views(lanes@);
    let n = lanes.len();
    let mut i: usize = 0;
    while i < n
        invariant
            n == lanes@.len(),
            lv == lane_views(lanes@),
            i <= n,
            forall|j: int| 0 <= j < i ==> lv[j] is Some,
        decreases n - i,
    {
        if lanes[i].is_none() {
            proof {
                lemma_first_free_at(lv, i as int);
            }
            return i;
        }
        i = i + 1;
    }
    proof {
        lemma_first_free(lv);
    }
    lanes.push(None);
    assert(lane_views(lanes@) =~= lv.push(None));
    n
}

fn grow_lanes(lanes: &mut Vec<Option<Vec<char>>>, col: usize)
    ensures
        lane_views(final(lanes)@) == grow(lane_views(old(lanes)@), col as int),
        final(lanes)@.len() > col,
{
    let ghost lv = lane_views(lanes@);
    while lanes.len() <= col
        invariant
            lane_views(lanes@) == (if lv.len() > col {
                lv
            } else {
                lv + Seq::new((lanes@.len() - lv.len()) as nat, |i: int| None::<Seq<char>>)
            }),
            lanes@.len() >= lv.len(),
            lanes@.len() <= col + 1 || lanes@.len() == lv.len(),
        decreases col + 1 - lanes.len(),
    {
        let ghost before = lane_views(lanes@);
        lanes.push(None);
        assert(lane_views(lanes@) =~= before.push(None));
        assert(lane_views(lanes@) =~= lv + Seq::new((lanes@.len() - lv.len()) as nat, |i: int| None::<Seq<char>>));
    }
    proof {
        if lv.len() > col {
            assert(grow(lv, col as int) == lv);
        } else {
            assert(lanes@.len() == col + 1);
            assert(lane_views(lanes@) =~= grow(lv, col as int));
        }
    }
}

fn pass_through_edges(lanes: &Vec<Option<Vec<char>>>, col: usize) -> (r: Vec<GraphEdge>)
    ensures
        edge_views(r@) == pass_edges(lane_views(lanes@), col as int, lanes@.len() as int),
{
    let ghost lv = lane_views(lanes@);
    let mut edges: Vec<GraphEdge> = Vec::new();
    for o in 0..lanes.len()
        invariant
            lv == lane_views(lanes@),
            edge_views(edges@) == pass_edges(lv, col as int, o as int),
    {
        let ghost before = edge_views(edges@);
        if o != col && lanes[o].is_some() {
            edges.push(
                GraphEdge {
                    from_column: o,
                    to_column: o,
                    edge_type: EdgeType::Straight,
                    color_index: o,
                    dashed: false,
                },
            );
            assert(edge_views(edges@) =~= before.push((o, o, EdgeType::Straight, o, false)));
        }
    }
    edges
}

fn kind_of(from: usize, to: usize) -> (r: EdgeType)
    ensures
        r == edge_kind(from as int, to as int),
{
    if to == from {
        EdgeType::Straight
    } else if to < from {
        EdgeType::MergeLeft
    } else {
        EdgeType::MergeRight
    }
}

fn place_parents(
    lanes: &mut Vec<Option<Vec<char>>>,
    pending: &mut Vec<(Vec<char>, usize)>,
    max_columns: &mut usize,
    col: usize,
    parents: &Vec<String>,
    edges: &mut Vec<GraphEdge>,
)
    ensures
        ({
            let acc = LaneAcc {
                lanes: lane_views(old(lanes)@),
                pending: pending_views(old(pending)@),
                max: *old(max_columns) as nat,
            };
            let (a2, es) = parent_steps(acc, col as int, string_views(parents@));
            &&& lane_views(final(lanes)@) == a2.lanes
            &&& pending_views(final(pending)@) == a2.pending
            &&& *final(max_columns) as nat == a2.max
            &&& edge_views(final(edges)@) == edge_views(old(edges)@) + es
        }),
{
    let ghost acc0 = LaneAcc {
        lanes: lane_views(lanes@),
        pending: pending_views(pending@),
        max: *max_columns as nat,
    };
    let ghost e0 = edge_views(edges@);
    let ghost ps = string_views(parents@);
    for idx in 0..parents.len()
        invariant
            ps == string_views(parents@),
            ({
                let (a, es) = parent_steps(acc0, col as int, ps.take(idx as int));
                &&& lane_views(lanes@) == a.lanes
                &&& pending_views(pending@) == a.pending
                &&& *max_columns as nat == a.max
                &&& edge_views(edges@) == e0 + es
            }),
    {
        let ghost a = parent_steps(acc0, col as int, ps.take(idx as int)).0;
        let ghost es = parent_steps(acc0, col as int, ps.take(idx as int)).1;
        proof {
            assert(ps.take(idx + 1).drop_last() =~= ps.take(idx as int));
            assert(ps.take(idx + 1).last() == parents@[idx as int]@);
        }
        let p = chars_of(parents[idx].as_str());
        let found = find_pending(pending, &p);
        let pc: usize = if idx == 0 {
            col
        } else {
            match found {
                Some(j) => {
                    proof {
                        lemma_key_index(pending_views(pending@), p@);
                    }
                    pending[j].1
                },
                None => find_free_column(lanes),
            }
        };
        if found.is_none() {
            let ghost pv = pending_views(pending@);
            let pk = crate::text::copy_chars(&p);
            pending.push((pk, pc));
            assert(pending_views(pending@) =~= pv.push((p@, pc)));
        }
        grow_lanes(lanes, pc);
        let ghost lv = lane_views(lanes@);
        lanes.set(pc, Some(p));
        assert(lane_views(lanes@) =~= lv.update(pc as int, Some(parents@[idx as int]@)));
        if lanes.len() > *max_columns {
            *max_columns = lanes.len();
        }
        let ghost ev = edge_views(edges@);
        edges.push(
            GraphEdge {
                from_column: col,
                to_column: pc,
                edge_type: kind_of(col, pc),
                color_index: pc,
                dashed: false,
            },
        );
        assert(edge_views(edges@) =~= ev.push((col, pc, edge_kind(col as int, pc as int), pc, false)));
    }
    assert(ps.take(ps.len() as int) =~= ps);
}

/// Lays out one commit: claims its column, emits its edges, places its parents.
fn layout_one(
    lanes: &mut Vec<Option<Vec<char>>>,
    pending: &mut Vec<(Vec<char>, usize)>,
    max_columns: &mut usize,
    oid_str: &str,
    parents: &Vec<String>,
) -> (r: (usize, Vec<GraphEdge>))
    ensures
        ({
            let acc = LaneAcc {
                lanes: lane_views(old(lanes)@),
                pending: pending_views(old(pending)@),
                max: *old(max_columns) as nat,
            };
            let (a2, col, es) = commit_step(acc, oid_str@, string_views(parents@));
            &&& lane_views(final(lanes)@) == a2.lanes
            &&& pending_views(final(pending)@) == a2.pending
            &&& *final(max_columns) as nat == a2.max
            &&& r.0 as int == col
            &&& edge_views(r.1@) == es
        }),
{
    let oid = chars_of(oid_str);
    let found = find_pending(pending, &oid);
    let col: usize = match found {
        Some(j) => {
            proof {
                lemma_key_index(pending_views(pending@), oid@);
            }
            let c = pending[j].1;
            let ghost pv = pending_views(pending@);
            pending.remove(j);
            assert(pending_views(pending@) =~= pv.remove(j as int));
            c
        },
        None => find_free_column(lanes),
    };
    grow_lanes(lanes, col);
    if lanes.len() > *max_columns {
        *max_columns = lanes.len();
    }
    let mut edges = pass_through_edges(lanes, col);
    let ghost pe = edge_views(edges@);
    let ghost lv = lane_views(lanes@);
    lanes.set(col, None);
    assert(lane_views(lanes@) =~= lv.update(col as int, None));
    place_parents(lanes, pending, max_columns, col, parents, &mut edges);
    (col, edges)
}

/// Assigns each commit (newest first) a column, a color (its column) and the
/// edges drawn on its row; returns the number of columns, at least one.
#[verifier::rlimit(40)]
pub fn assign_graph_lanes(commits: &mut Vec<GraphCommit>) -> (max_columns: usize)
    ensures
        final(commits)@.len() == old(commits)@.len(),
        ({
            let (acc, rows) = layout(commit_keys(old(commits)@));
            &&& max_columns as nat == max_nat(acc.max, 1)
            &&& forall|i: int|
                0 <= i < old(commits)@.len() ==> {
                    let c = #[trigger] final(commits)@[i];
                    &&& c == GraphCommit {
                        column: rows[i].0 as usize,
                        color_index: rows[i].0 as usize,
                        edges: c.edges,
                        ..old(commits)@[i]
                    }
                    &&& edge_views(c.edges@) == rows[i].1
                }
        }),
        max_columns >= 1,
        forall|i: int|
            0 <= i < old(commits)@.len() ==> {
                &&& (#[trigger] final(commits)@[i]).column < max_columns
                &&& final(commits)@[i].color_index == final(commits)@[i].column
                &&& row_edges_shaped(
                    final(commits)@[i].column as int,
                    edge_views(final(commits)@[i].edges@),
                    old(commits)@[i].parent_oids@.len() as int,
                )
            },
{
    let ghost keys = commit_keys(commits@);
    let ghost original = commits@;
    let mut lanes: Vec<Option<Vec<char>>> = Vec::new();
    let mut pending: Vec<(Vec<char>, usize)> = Vec::new();
    let mut max_columns: usize = 0;
    assert(lane_views(lanes@) =~= Seq::<Option<Seq<char>>>::empty());
    assert(pending_views(pending@) =~= Seq::<(Seq<char>, usize)>::empty());
    let n = commits.len();
    for i in 0..n
        invariant
            n == original.len(),
            commits@.len() == n,
            keys == commit_keys(original),
            lane_views(lanes@) == layout(keys.take(i as int)).0.lanes,
            pending_views(pending@) == layout(keys.take(i as int)).0.pending,
            max_columns as nat == layout(keys.take(i as int)).0.max,
            forall|k: int|
                0 <= k < i ==> {
                    let c = #[trigger] commits@[k];
                    &&& c == GraphCommit {
                        column: layout(keys.take(i as int)).1[k].0 as usize,
                        color_index: layout(keys.take(i as int)).1[k].0 as usize,
                        edges: c.edges,
                        ..original[k]
                    }
                    &&& edge_views(c.edges@) == layout(keys.take(i as int)).1[k].1
                },
            forall|k: int| i <= k < n ==> commits@[k] == original[k],
    {
        let ghost prev = layout(keys.take(i as int));
        proof {
            assert(keys.take(i + 1).drop_last() =~= keys.take(i as int));
            assert(keys.take(i + 1).last() == keys[i as int]);
            assert(commits@[i as int] == original[i as int]);
            assert(keys[i as int] == (original[i as int].oid@, string_views(original[i as int].parent_oids@)));
        }
        let (col, edges) = layout_one(
            &mut lanes,
            &mut pending,
            &mut max_columns,
            commits[i].oid.as_str(),
            &commits[i].parent_oids,
        );
        let ghost before = commits@;
        commits[i].column = col;
        commits[i].color_index = col;
        commits[i].edges = edges;
        proof {
            let next = layout(keys.take(i + 1));
            lemma_layout_len(keys.take(i as int));
            assert(next.1 == prev.1.push((col as int, edge_views(edges@))));
            assert forall|k: int| 0 <= k < i + 1 implies {
                let c = #[trigger] commits@[k];
                &&& c == GraphCommit {
                    column: next.1[k].0 as usize,
                    color_index: next.1[k].0 as usize,
                    edges: c.edges,
                    ..original[k]
                }
                &&& edge_views(c.edges@) == next.1[k].1
            } by {
                if k < i {
                    assert(commits@[k] == before[k]);
                    assert(next.1[k] == prev.1[k]);
                }
            }
        }
    }
    assert(keys.take(n as int) =~= keys);
    proof {
        lemma_layout_edges_shaped(keys);
        lemma_lanes_within(keys);
        assert forall|i: int| 0 <= i < n implies {
            &&& (#[trigger] commits@[i]).column < max_nat(layout(keys).0.max, 1)
            &&& commits@[i].color_index == commits@[i].column
            &&& row_edges_shaped(
                commits@[i].column as int,
                edge_views(commits@[i].edges@),
                original[i].parent_oids@.len() as int,
            )
        } by {
            let rows = layout(keys).1;
            assert(0 <= rows[i].0 < max_nat(layout(keys).0.max, 1));
            assert(commits@[i].column as int == rows[i].0);
            assert(keys[i].1 == string_views(original[i].parent_oids@));
            assert(keys[i].1.len() == original[i].parent_oids@.len());
        }
    }
    if max_columns < 1 {
        1
    } else {
        max_columns
    }
}

} // verus!
