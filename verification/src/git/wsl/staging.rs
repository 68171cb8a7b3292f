//! Patches that stage, unstage or discard one hunk, or chosen lines of one
//! hunk, of a file's diff.
use vstd::prelude::*;

use crate::error::TrunkError;
use crate::git::command_runner::{
    arg_views, args_of, failure_error, failure_message, push_arg, push_args, stdout_string,
    stdout_text, str_views, CommandOutput,
};
use crate::git::read_model::{parse_unified_diff, unified_diff};
use crate::git::types::{file_views, FileDiffView};
use crate::git::types::{
    DiffHunk, DiffHunkView, DiffLine, DiffLineView, DiffOrigin, DiffStatus, FileDiff,
    line_views,
};
use crate::text::{
    chars_of, decimal, ends_with, has_prefix_str, is_blank, lines_incl, lines_incl_of, push_all,
    push_decimal, push_str, starts_with, string_of, trim, views,
};

verus! {

// ---------------------------------------------------------------------------
// One hunk of a diff
// ---------------------------------------------------------------------------

/// The lines before the first hunk, the lines of the chosen hunk, how many
/// lines each holds, and the index of the hunk being read.
pub struct HunkPick {
    pub header: Seq<char>,
    pub header_lines: nat,
    pub selected: Seq<char>,
    pub selected_lines: nat,
    pub current: Option<nat>,
}

pub open spec fn pick_step(a: HunkPick, line: Seq<char>, hunk: nat) -> HunkPick {
    let current = if starts_with(line, "@@ "@) {
        Some(
            match a.current {
                Some(i) => i + 1,
                None => 0,
            },
        )
    } else {
        a.current
    };
    match current {
        None => HunkPick {
            header: a.header + line,
            header_lines: a.header_lines + 1,
            current,
            ..a
        },
        Some(i) => if i == hunk {
            HunkPick { selected: a.selected + line, selected_lines: a.selected_lines + 1, current, ..a }
        } else {
            HunkPick { current, ..a }
        },
    }
}

pub open spec fn pick_fold(lines: Seq<Seq<char>>, hunk: nat, k: int) -> HunkPick
    decreases k,
{
    if k <= 0 {
        HunkPick {
            header: Seq::empty(),
            header_lines: 0,
            selected: Seq::empty(),
            selected_lines: 0,
            current: None,
        }
    } else {
        pick_step(pick_fold(lines, hunk, k - 1), lines[k - 1], hunk)
    }
}

/// What picking hunk `hunk` of `raw` gives: the patch (file header and that
/// hunk), or an error code and message: no change at all, no such hunk, or
/// no file header (under `empty_code`).
pub open spec fn hunk_patch(raw: Seq<char>, hunk: u32, file_path: Seq<char>, empty_code: Seq<char>) -> Result<Seq<char>, (Seq<char>, Seq<char>)> {
    let ls = lines_incl(raw);
    let a = pick_fold(ls, hunk as nat, ls.len() as int);
    let count: nat = match a.current {
        Some(i) => i + 1,
        None => 0,
    };
    if trim(raw).len() == 0 {
        Err(("file_not_found"@, "No changes for: "@ + file_path))
    } else if a.selected_lines == 0 {
        Err(
            (
                "stale_hunk_index"@,
                "Hunk index "@ + decimal(hunk as nat) + " out of range (file has "@ + decimal(count)
                    + " hunks)"@,
            ),
        )
    } else if a.header_lines == 0 {
        Err((empty_code, "Patch header not found"@))
    } else {
        Ok(a.header + a.selected)
    }
}

/// The model of a result whose error is a `TrunkError`.
pub open spec fn outcome<T>(r: Result<T, TrunkError>, v: spec_fn(T) -> Seq<char>) -> Result<Seq<char>, (Seq<char>, Seq<char>)> {
    match r {
        Ok(x) => Ok(v(x)),
        Err(e) => Err((e.code@, e.message@)),
    }
}

/// The patch that applies only hunk `hunk_index` of the diff text `raw`: the
/// file header (every line before the first hunk) and that hunk's lines.
pub fn select_hunk_patch(raw: &str, hunk_index: u32, file_path: &str, empty_code: &str) -> (r: Result<String, TrunkError>)
    ensures
        outcome(r, |s: String| s@) == hunk_patch(raw@, hunk_index, file_path@, empty_code@),
{
    let cs = chars_of(raw);
    let ls = lines_incl_of(&cs);
    let ghost lv = views(ls@);
    let mut header: Vec<char> = Vec::new();
    let mut header_n: usize = 0;
    let mut selected: Vec<char> = Vec::new();
    let mut selected_n: usize = 0;
    let mut current: Option<usize> = None;
    for k in 0..ls.len()
        invariant
            lv == views(ls@),
            lv == lines_incl(raw@),
            ({
                let a = pick_fold(lv, hunk_index as nat, k as int);
                &&& a.header == header@
                &&& a.header_lines == header_n
                &&& a.selected == selected@
                &&& a.selected_lines == selected_n
                &&& a.current == (match current {
                    Some(i) => Some(i as nat),
                    None => None::<nat>,
                })
            }),
            header_n <= k,
            selected_n <= k,
            current matches Some(i) ==> i < k,
    {
        let line = &ls[k];
        assert(lv[k as int] == line@);
        proof {
            reveal_strlit("@@ ");
        }
        if has_prefix_str(line, "@@ ") {
            current = Some(
                match current {
                    Some(i) => i + 1,
                    None => 0,
                },
            );
        }
        match current {
            None => {
                push_all(&mut header, line);
                header_n = header_n + 1;
            },
            Some(i) => {
                if i == hunk_index as usize {
                    push_all(&mut selected, line);
                    selected_n = selected_n + 1;
                }
            },
        }
    }
    if is_blank(&cs) {
        let mut m = chars_of("No changes for: ");
        push_str(&mut m, file_path);
        return Err(TrunkError::from_chars("file_not_found", &m));
    }
    if selected_n == 0 {
        let count: usize = match current {
            Some(i) => i + 1,
            None => 0,
        };
        let mut m = chars_of("Hunk index ");
        push_decimal(&mut m, hunk_index as u64);
        push_str(&mut m, " out of range (file has ");
        push_decimal(&mut m, count as u64);
        push_str(&mut m, " hunks)");
        return Err(TrunkError::from_chars("stale_hunk_index", &m));
    }
    if header_n == 0 {
        return Err(TrunkError::new(empty_code, "Patch header not found"));
    }
    let mut out = header;
    push_all(&mut out, &selected);
    Ok(string_of(&out))
}

// ---------------------------------------------------------------------------
// Chosen lines of a hunk
// ---------------------------------------------------------------------------

/// A line's text ending with `'\n'`.
pub open spec fn line_text(c: Seq<char>) -> Seq<char> {
    if ends_with(c, "\n"@) {
        c
    } else {
        c.push('\n')
    }
}

/// How a line of the hunk enters the partial patch, if at all: its prefix,
/// and whether it counts on the old side and on the new side. Forwards, an
/// unchosen added line is left out and an unchosen deleted line becomes
/// context; in reverse the sides swap.
pub open spec fn partial_line(origin: DiffOrigin, chosen: bool, reverse: bool) -> Option<(char, bool, bool)> {
    match origin {
        DiffOrigin::Context => Some((' ', true, true)),
        DiffOrigin::Add => if reverse {
            if chosen {
                Some(('-', true, false))
            } else {
                Some((' ', true, true))
            }
        } else if chosen {
            Some(('+', false, true))
        } else {
            None
        },
        DiffOrigin::Delete => if reverse {
            if chosen {
                Some(('+', false, true))
            } else {
                None
            }
        } else if chosen {
            Some(('-', true, false))
        } else {
            Some((' ', true, true))
        },
    }
}

/// The body of the partial patch over the first `k` lines, with its old and
/// new line counts.
pub open spec fn partial_body(lines: Seq<DiffLineView>, chosen: Seq<u32>, reverse: bool, k: int) -> (Seq<char>, nat, nat)
    decreases k,
{
    if k <= 0 {
        (Seq::empty(), 0, 0)
    } else {
        let (body, old, new) = partial_body(lines, chosen, reverse, k - 1);
        match partial_line(lines[k - 1].origin, chosen.contains((k - 1) as u32), reverse) {
            Some((p, o, n)) => (
                body + seq![p] + line_text(lines[k - 1].content),
                if o {
                    old + 1
                } else {
                    old
                },
                if n {
                    new + 1
                } else {
                    new
                },
            ),
            None => (body, old, new),
        }
    }
}

/// A partial patch in which none of the hunk's lines is chosen adds and
/// removes nothing: every line it keeps counts on both sides, so its old and
/// new line counts are equal.
pub proof fn lemma_nothing_chosen_changes_nothing(lines: Seq<DiffLineView>, chosen: Seq<u32>, reverse: bool, k: int)
    requires
        0 <= k <= lines.len() <= u32::MAX,
        forall|j: u32| (j as int) < k ==> !#[trigger] chosen.contains(j),
    ensures
        partial_body(lines, chosen, reverse, k).1 == partial_body(lines, chosen, reverse, k).2,
    decreases k,
{
    if k > 0 {
        lemma_nothing_chosen_changes_nothing(lines, chosen, reverse, k - 1);
        assert(!chosen.contains((k - 1) as u32));
    }
}

/// How many of the first `k` lines have origin `o` and are chosen.
pub open spec fn chosen_count(lines: Seq<DiffLineView>, chosen: Seq<u32>, o: DiffOrigin, k: int) -> nat
    decreases k,
{
    if k <= 0 {
        0
    } else {
        chosen_count(lines, chosen, o, k - 1) + if lines[k - 1].origin == o && chosen.contains((k - 1) as u32) {
            1nat
        } else {
            0nat
        }
    }
}

/// How many of the first `k` lines do not have origin `o`.
pub open spec fn other_count(lines: Seq<DiffLineView>, o: DiffOrigin, k: int) -> nat
    decreases k,
{
    if k <= 0 {
        0
    } else {
        other_count(lines, o, k - 1) + if lines[k - 1].origin != o {
            1nat
        } else {
            0nat
        }
    }
}

/// The line counts of a partial patch. Forwards, its old side is the hunk's
/// old side (every line but the additions), and its new side is the old side
/// less the chosen removals plus the chosen additions. In reverse the hunk's
/// new side (every line but the removals) is the patch's old side, less the
/// chosen additions plus the chosen removals.
pub proof fn lemma_partial_counts(lines: Seq<DiffLineView>, chosen: Seq<u32>, reverse: bool, k: int)
    requires
        0 <= k <= lines.len(),
    ensures
        ({
            let (_, old, new) = partial_body(lines, chosen, reverse, k);
            &&& !reverse ==> old == other_count(lines, DiffOrigin::Add, k) && new + chosen_count(
                lines,
                chosen,
                DiffOrigin::Delete,
                k,
            ) == old + chosen_count(lines, chosen, DiffOrigin::Add, k)
            &&& reverse ==> old == other_count(lines, DiffOrigin::Delete, k) && new + chosen_count(
                lines,
                chosen,
                DiffOrigin::Add,
                k,
            ) == old + chosen_count(lines, chosen, DiffOrigin::Delete, k)
        }),
    decreases k,
{
    if k > 0 {
        lemma_partial_counts(lines, chosen, reverse, k - 1);
    }
}

/// Each chosen line enters the patch as a change: forwards a chosen removal
/// as `-` and its text, a chosen addition as `+` and its text; in reverse the
/// other way round.
pub proof fn lemma_chosen_rows(lines: Seq<DiffLineView>, chosen: Seq<u32>, reverse: bool, k: int)
    requires
        0 < k <= lines.len(),
        chosen.contains((k - 1) as u32),
        lines[k - 1].origin != DiffOrigin::Context,
    ensures
        ({
            let before = partial_body(lines, chosen, reverse, k - 1).0;
            let after = partial_body(lines, chosen, reverse, k).0;
            let removes = (lines[k - 1].origin == DiffOrigin::Delete) != reverse;
            after == before + seq![if removes { '-' } else { '+' }] + line_text(lines[k - 1].content)
        }),
{
}

/// A context line, or an unchosen change of the side the patch starts from,
/// enters the patch as context; an unchosen change of the other side is left
/// out (forwards an unchosen addition, in reverse an unchosen removal).
pub proof fn lemma_unchosen_rows(lines: Seq<DiffLineView>, chosen: Seq<u32>, reverse: bool, k: int)
    requires
        0 < k <= lines.len(),
        !chosen.contains((k - 1) as u32) || lines[k - 1].origin == DiffOrigin::Context,
    ensures
        ({
            let before = partial_body(lines, chosen, reverse, k - 1);
            let after = partial_body(lines, chosen, reverse, k);
            let left_out = (lines[k - 1].origin == DiffOrigin::Add && !reverse) || (lines[k - 1].origin
                == DiffOrigin::Delete && reverse);
            &&& left_out ==> after == before
            &&& !left_out ==> after == (before.0 + seq![' '] + line_text(lines[k - 1].content), before.1 + 1, before.2 + 1)
        }),
{
}

pub open spec fn is_added(s: DiffStatus) -> bool {
    s == DiffStatus::Added || s == DiffStatus::Untracked
}

/// `--- /dev/null` when the patch creates the file, `--- a/<path>` otherwise.
pub open spec fn old_header(status: DiffStatus, reverse: bool, path: Seq<char>) -> Seq<char> {
    if (!reverse && is_added(status)) || (reverse && status == DiffStatus::Deleted) {
        "--- /dev/null"@
    } else {
        "--- a/"@ + path
    }
}

/// `+++ /dev/null` when the patch deletes the file, `+++ b/<path>` otherwise.
pub open spec fn new_header(status: DiffStatus, reverse: bool, path: Seq<char>) -> Seq<char> {
    if (!reverse && status == DiffStatus::Deleted) || (reverse && is_added(status)) {
        "+++ /dev/null"@
    } else {
        "+++ b/"@ + path
    }
}

/// The patch that applies only the chosen lines of a hunk (forwards to
/// stage them, in reverse to unstage or discard them).
pub open spec fn partial_patch(path: Seq<char>, status: DiffStatus, hunk: DiffHunkView, chosen: Seq<u32>, reverse: bool) -> Seq<char> {
    let (body, old, new) = partial_body(hunk.lines, chosen, reverse, hunk.lines.len() as int);
    let (old_start, new_start) = if reverse {
        (hunk.new_start, hunk.old_start)
    } else {
        (hunk.old_start, hunk.new_start)
    };
    "diff --git a/"@ + path + " b/"@ + path + "\n"@ + old_header(status, reverse, path) + "\n"@
        + new_header(status, reverse, path) + "\n"@ + "@@ -"@ + decimal(old_start as nat) + ","@
        + decimal(old) + " +"@ + decimal(new_start as nat) + ","@ + decimal(new) + " @@\n"@ + body
}

fn contains_index(v: &[u32], x: u32) -> (r: bool)
    ensures
        r == v@.contains(x),
{
    let n = v.len();
    for i in 0..n
        invariant
            n == v@.len(),
            forall|j: int| 0 <= j < i ==> v@[j] != x,
    {
        if v[i] == x {
            assert(v@[i as int] == x);
            return true;
        }
    }
    false
}

/// The line's text, ending with `'\n'`.
pub fn line_content(line: &DiffLine) -> (r: Vec<char>)
    ensures
        r@ == line_text(line.content@),
{
    let mut c = chars_of(line.content.as_str());
    proof {
        reveal_strlit("\n");
    }
    let n = c.len();
    if n > 0 && c[n - 1] == '\n' {
        assert(c@.skip(n - 1) =~= "\n"@);
        c
    } else {
        assert(!ends_with(c@, "\n"@)) by {
            if ends_with(c@, "\n"@) {
                assert(c@.skip(c@.len() - 1)[0] == '\n');
            }
        }
        c.push('\n');
        c
    }
}

fn partial_body_of(lines: &Vec<DiffLine>, selected_indices: &[u32], reverse: bool) -> (r: (Vec<char>, u32, u32))
    requires
        lines@.len() <= u32::MAX,
    ensures
        (r.0@, r.1 as nat, r.2 as nat) == partial_body(line_views(lines@), selected_indices@, reverse, lines@.len() as int),
{
    let ghost lv = line_views(lines@);
    let mut body: Vec<char> = Vec::new();
    let mut old_count: u32 = 0;
    let mut new_count: u32 = 0;
    let n = lines.len();
    for i in 0..n
        invariant
            n == lines@.len(),
            n <= u32::MAX,
            lv == line_views(lines@),
            (body@, old_count as nat, new_count as nat) == partial_body(lv, selected_indices@, reverse, i as int),
            old_count <= i,
            new_count <= i,
    {
        let line = &lines[i];
        assert(lv[i as int] == line@);
        let chosen = contains_index(selected_indices, i as u32);
        let (prefix, o, nw, keep) = match line.origin {
            DiffOrigin::Context => (' ', true, true, true),
            DiffOrigin::Add => if reverse {
                if chosen {
                    ('-', true, false, true)
                } else {
                    (' ', true, true, true)
                }
            } else if chosen {
                ('+', false, true, true)
            } else {
                (' ', false, false, false)
            },
            DiffOrigin::Delete => if reverse {
                if chosen {
                    ('+', false, true, true)
                } else {
                    (' ', false, false, false)
                }
            } else if chosen {
                ('-', true, false, true)
            } else {
                (' ', true, true, true)
            },
        };
        assert(keep == (partial_line(line.origin, chosen, reverse) is Some));
        if keep {
            assert(partial_line(line.origin, chosen, reverse) == Some((prefix, o, nw)));
            let ghost before = body@;
            body.push(prefix);
            let t = line_content(line);
            push_all(&mut body, &t);
            assert(body@ =~= before + seq![prefix] + line_text(lv[i as int].content));
            if o {
                old_count = old_count + 1;
            }
            if nw {
                new_count = new_count + 1;
            }
        }
    }
    (body, old_count, new_count)
}

fn push_file_headers(out: &mut Vec<char>, file_path: &str, status: DiffStatus, reverse: bool)
    ensures
        final(out)@ == old(out)@ + "diff --git a/"@ + file_path@ + " b/"@ + file_path@ + "\n"@ + old_header(
            status,
            reverse,
            file_path@,
        ) + "\n"@ + new_header(status, reverse, file_path@) + "\n"@,
{
    let ghost start = out@;
    let added = match status {
        DiffStatus::Added | DiffStatus::Untracked => true,
        _ => false,
    };
    let deleted = match status {
        DiffStatus::Deleted => true,
        _ => false,
    };
    push_str(out, "diff --git a/");
    push_str(out, file_path);
    push_str(out, " b/");
    push_str(out, file_path);
    push_str(out, "\n");
    let ghost mid = out@;
    if (!reverse && added) || (reverse && deleted) {
        push_str(out, "--- /dev/null");
    } else {
        push_str(out, "--- a/");
        push_str(out, file_path);
    }
    assert(out@ =~= mid + old_header(status, reverse, file_path@));
    push_str(out, "\n");
    let ghost mid2 = out@;
    if (!reverse && deleted) || (reverse && added) {
        push_str(out, "+++ /dev/null");
    } else {
        push_str(out, "+++ b/");
        push_str(out, file_path);
    }
    assert(out@ =~= mid2 + new_header(status, reverse, file_path@));
    push_str(out, "\n");
    assert(out@ =~= start + "diff --git a/"@ + file_path@ + " b/"@ + file_path@ + "\n"@ + old_header(
        status,
        reverse,
        file_path@,
    ) + "\n"@ + new_header(status, reverse, file_path@) + "\n"@);
}

/// The patch that applies only the chosen lines (by index in the hunk) of a
/// hunk of `file_diff`: forwards to stage them, in reverse to unstage or
/// discard them; unchosen changes become context or are left out so the
/// patch still applies.
pub fn build_partial_patch_from_diff(
    file_path: &str,
    file_diff: &FileDiff,
    hunk: &DiffHunk,
    selected_indices: &[u32],
    reverse: bool,
) -> (r: String)
    requires
        hunk.lines@.len() <= u32::MAX,
    ensures
        r@ == partial_patch(file_path@, file_diff.status, hunk@, selected_indices@, reverse),
{
    let (body, old_count, new_count) = partial_body_of(&hunk.lines, selected_indices, reverse);
    let (old_start, new_start) = if reverse {
        (hunk.new_start, hunk.old_start)
    } else {
        (hunk.old_start, hunk.new_start)
    };
    let mut out: Vec<char> = Vec::new();
    push_file_headers(&mut out, file_path, file_diff.status, reverse);
    let ghost head = out@;
    push_str(&mut out, "@@ -");
    push_decimal(&mut out, old_start as u64);
    push_str(&mut out, ",");
    push_decimal(&mut out, old_count as u64);
    push_str(&mut out, " +");
    push_decimal(&mut out, new_start as u64);
    push_str(&mut out, ",");
    push_decimal(&mut out, new_count as u64);
    push_str(&mut out, " @@\n");
    push_all(&mut out, &body);
    assert(out@ =~= partial_patch(file_path@, file_diff.status, hunk@, selected_indices@, reverse));
    string_of(&out)
}


// ---------------------------------------------------------------------------
// Running the commands
// ---------------------------------------------------------------------------

/// The outcome of a command that changes the repository: nothing when it
/// succeeded, else `code` with git's trimmed error output.
pub fn git_write(output: &CommandOutput, code: &str) -> (r: Result<(), TrunkError>)
    ensures
        r is Ok <==> output.success,
        r matches Err(e) ==> e.code@ == code@ && e.message@ == failure_message(
            *output,
            "Git write operation failed"@,
        ),
{
    if output.success {
        Ok(())
    } else {
        Err(failure_error(output, code, "Git write operation failed"))
    }
}

/// The outcome of `git apply` fed a patch.
pub fn git_apply(output: &CommandOutput, code: &str) -> (r: Result<(), TrunkError>)
    ensures
        r is Ok <==> output.success,
        r matches Err(e) ==> e.code@ == code@ && e.message@ == failure_message(
            *output,
            "Git patch apply failed"@,
        ),
{
    if output.success {
        Ok(())
    } else {
        Err(failure_error(output, code, "Git patch apply failed"))
    }
}

/// What a read-only command printed, or `code` with git's error output.
pub fn git_output_text(output: &CommandOutput, code: &str) -> (r: Result<String, TrunkError>)
    ensures
        r is Ok <==> output.success,
        r matches Ok(s) ==> s@ == stdout_text(*output),
        r matches Err(e) ==> e.code@ == code@ && e.message@ == failure_message(
            *output,
            "Git command failed"@,
        ),
{
    if output.success {
        Ok(stdout_string(output))
    } else {
        Err(failure_error(output, code, "Git command failed"))
    }
}

/// The command that stages the given paths; none when there are none.
pub fn wsl_stage_files(file_paths: &Vec<String>) -> (r: Option<Vec<String>>)
    ensures
        file_paths@.len() == 0 <==> r is None,
        r matches Some(a) ==> arg_views(a@) == seq!["add"@, "--"@] + arg_views(file_paths@),
{
    if file_paths.len() == 0 {
        return None;
    }
    let mut a = args_of(&["add", "--"]);
    assert(str_views(seq!["add", "--"]) =~= seq!["add"@, "--"@]);
    push_args(&mut a, file_paths);
    Some(a)
}

/// The command that unstages the given paths: `restore --staged` when `HEAD`
/// exists, else removal from the index; none when there are no paths.
pub fn wsl_unstage_files(file_paths: &Vec<String>, head_exists: bool) -> (r: Option<Vec<String>>)
    ensures
        file_paths@.len() == 0 <==> r is None,
        r matches Some(a) ==> arg_views(a@) == (if head_exists {
            seq!["restore"@, "--staged"@, "--"@]
        } else {
            seq!["rm"@, "--cached"@, "-r"@, "--ignore-unmatch"@, "--"@]
        }) + arg_views(file_paths@),
{
    if file_paths.len() == 0 {
        return None;
    }
    let mut a = if head_exists {
        let a = args_of(&["restore", "--staged", "--"]);
        assert(str_views(seq!["restore", "--staged", "--"]) =~= seq!["restore"@, "--staged"@, "--"@]);
        a
    } else {
        let a = args_of(&["rm", "--cached", "-r", "--ignore-unmatch", "--"]);
        assert(str_views(seq!["rm", "--cached", "-r", "--ignore-unmatch", "--"]) =~= seq![
            "rm"@,
            "--cached"@,
            "-r"@,
            "--ignore-unmatch"@,
            "--"@,
        ]);
        a
    };
    push_args(&mut a, file_paths);
    Some(a)
}

/// The next step of reading a path's unstaged changes as diff text.
#[derive(Debug)]
pub enum DiffTextStep {
    /// Run git with these arguments and come back with its output.
    Run(Vec<String>),
    /// The diff text, or why it could not be read.
    Done(Result<String, TrunkError>),
}

/// The unstaged diff text of one path, read in up to three commands: `diff`
/// for a tracked path; when that fails or prints nothing, `ls-files --others`
/// to see whether the path is untracked; then a diff against `/dev/null`.
/// `outputs` holds what the commands run so far left behind.
pub fn wsl_unstaged_diff_text(file_path: &str, outputs: &Vec<CommandOutput>) -> (r: DiffTextStep)
    ensures
        outputs@.len() == 0 ==> (r matches DiffTextStep::Run(a) && arg_views(a@) == seq![
            "diff"@,
            "--no-color"@,
            "--find-renames"@,
            "--"@,
            file_path@,
        ]),
        outputs@.len() >= 1 && outputs@[0].success && outputs@[0].stdout@.len() > 0 ==> (r matches DiffTextStep::Done(Ok(t))
            && t@ == stdout_text(outputs@[0])),
        outputs@.len() == 1 && !(outputs@[0].success && outputs@[0].stdout@.len() > 0) ==> (r matches DiffTextStep::Run(a)
            && arg_views(a@) == seq![
            "ls-files"@,
            "--others"@,
            "--exclude-standard"@,
            "--"@,
            file_path@,
        ]),
        outputs@.len() >= 2 && !(outputs@[0].success && outputs@[0].stdout@.len() > 0) ==> {
            let o = outputs@[1];
            &&& !o.success ==> (r matches DiffTextStep::Done(Err(e)) && e.code@ == "git_diff_error"@
                && e.message@ == failure_message(o, "Git command failed"@))
            &&& o.success && trim(stdout_text(o)).len() == 0 ==> (r matches DiffTextStep::Done(Ok(t))
                && t@.len() == 0)
            &&& o.success && trim(stdout_text(o)).len() > 0 && outputs@.len() == 2 ==> (r matches DiffTextStep::Run(a)
                && arg_views(a@) == seq![
                "diff"@,
                "--no-color"@,
                "--no-index"@,
                "/dev/null"@,
                file_path@,
            ])
            &&& o.success && trim(stdout_text(o)).len() > 0 && outputs@.len() >= 3 ==> (r matches DiffTextStep::Done(Ok(t))
                && t@ == stdout_text(outputs@[2]))
        },
{
    if outputs.len() == 0 {
        let mut a = args_of(&["diff", "--no-color", "--find-renames", "--"]);
        assert(str_views(seq!["diff", "--no-color", "--find-renames", "--"]) =~= seq![
            "diff"@,
            "--no-color"@,
            "--find-renames"@,
            "--"@,
        ]);
        push_arg(&mut a, file_path);
        return DiffTextStep::Run(a);
    }
    if outputs[0].success && outputs[0].stdout.len() > 0 {
        return DiffTextStep::Done(Ok(stdout_string(&outputs[0])));
    }
    if outputs.len() == 1 {
        let mut a = args_of(&["ls-files", "--others", "--exclude-standard", "--"]);
        assert(str_views(seq!["ls-files", "--others", "--exclude-standard", "--"]) =~= seq![
            "ls-files"@,
            "--others"@,
            "--exclude-standard"@,
            "--"@,
        ]);
        push_arg(&mut a, file_path);
        return DiffTextStep::Run(a);
    }
    let untracked = match git_output_text(&outputs[1], "git_diff_error") {
        Ok(t) => t,
        Err(e) => return DiffTextStep::Done(Err(e)),
    };
    if is_blank(&chars_of(untracked.as_str())) {
        return DiffTextStep::Done(Ok(String::new()));
    }
    if outputs.len() == 2 {
        let mut a = args_of(&["diff", "--no-color", "--no-index", "/dev/null"]);
        assert(str_views(seq!["diff", "--no-color", "--no-index", "/dev/null"]) =~= seq![
            "diff"@,
            "--no-color"@,
            "--no-index"@,
            "/dev/null"@,
        ]);
        push_arg(&mut a, file_path);
        return DiffTextStep::Run(a);
    }
    DiffTextStep::Done(Ok(stdout_string(&outputs[2])))
}

/// The command that prints a path's staged diff text.
pub fn wsl_staged_diff_args(file_path: &str) -> (r: Vec<String>)
    ensures
        arg_views(r@) == seq!["diff"@, "--cached"@, "--no-color"@, "--find-renames"@, "--"@, file_path@],
{
    let mut a = args_of(&["diff", "--cached", "--no-color", "--find-renames", "--"]);
    assert(str_views(seq!["diff", "--cached", "--no-color", "--find-renames", "--"]) =~= seq![
        "diff"@,
        "--cached"@,
        "--no-color"@,
        "--find-renames"@,
        "--"@,
    ]);
    push_arg(&mut a, file_path);
    a
}

/// The diff of the one file a path's diff text holds, and its hunk
/// `hunk_index`; errors when there is no diff, no such hunk, or the diff is of
/// another path.
pub open spec fn single_diff(diffs: Seq<FileDiffView>, file_path: Seq<char>, hunk_index: u32, missing: Seq<char>) -> Result<(FileDiffView, DiffHunkView), (Seq<char>, Seq<char>)> {
    if diffs.len() == 0 {
        Err(("file_not_found"@, missing))
    } else if hunk_index >= diffs[0].hunks.len() {
        Err(
            (
                "stale_hunk_index"@,
                "Hunk index "@ + decimal(hunk_index as nat) + " out of range (file has "@
                    + decimal(diffs[0].hunks.len()) + " hunks)"@,
            ),
        )
    } else if diffs[0].path != file_path && !ends_with(diffs[0].path, file_path) {
        Err(("file_not_found"@, "No changes for: "@ + file_path))
    } else {
        Ok((diffs[0], diffs[0].hunks[hunk_index as int]))
    }
}

/// Picks the first file diff and its hunk `hunk_index`.
pub fn single_wsl_diff(diffs: Vec<FileDiff>, file_path: &str, hunk_index: u32, missing_message: &str) -> (r: Result<(FileDiff, DiffHunk), TrunkError>)
    ensures
        match (r, single_diff(file_views(diffs@), file_path@, hunk_index, missing_message@)) {
            (Ok((f, h)), Ok((fv, hv))) => f@ == fv && h@ == hv,
            (Err(e), Err((c, m))) => e.code@ == c && e.message@ == m,
            _ => false,
        },
{
    let mut diffs = diffs;
    let ghost views0 = file_views(diffs@);
    if diffs.len() == 0 {
        return Err(TrunkError::new("file_not_found", missing_message));
    }
    let file_diff = diffs.remove(0);
    assert(file_diff@ == views0[0]);
    let n = file_diff.hunks.len();
    if hunk_index as usize >= n {
        let mut m: Vec<char> = Vec::new();
        push_str(&mut m, "Hunk index ");
        push_decimal(&mut m, hunk_index as u64);
        push_str(&mut m, " out of range (file has ");
        push_decimal(&mut m, n as u64);
        push_str(&mut m, " hunks)");
        return Err(TrunkError::from_chars("stale_hunk_index", &m));
    }
    let hunk = file_diff.hunks[hunk_index as usize].copy();
    let p = chars_of(file_diff.path.as_str());
    let fp = chars_of(file_path);
    if !crate::text::chars_eq(&p, &fp) && !crate::text::has_suffix(&p, &fp) {
        let mut m: Vec<char> = Vec::new();
        push_str(&mut m, "No changes for: ");
        push_str(&mut m, file_path);
        return Err(TrunkError::from_chars("file_not_found", &m));
    }
    Ok((file_diff, hunk))
}

/// What to apply and how: `git` arguments, the patch fed to them, and the
/// error code a failure is reported under.
#[derive(Debug)]
pub struct ApplyPlan {
    pub args: Vec<String>,
    pub patch: String,
    pub code: String,
}

/// Applying hunk `hunk_index` of a path's diff text: to the index (`cached`),
/// in reverse or not.
pub fn hunk_apply_plan(raw: &str, file_path: &str, hunk_index: u32, cached: bool, reverse: bool) -> (r: Result<ApplyPlan, TrunkError>)
    ensures
        outcome(r, |p: ApplyPlan| p.patch@) == hunk_patch(raw@, hunk_index, file_path@, "hunk_apply_failed"@),
        r matches Ok(p) ==> p.code@ == "hunk_apply_failed"@ && arg_views(p.args@) == apply_args(cached, reverse),
{
    let patch = match select_hunk_patch(raw, hunk_index, file_path, "hunk_apply_failed") {
        Ok(p) => p,
        Err(e) => return Err(e),
    };
    Ok(ApplyPlan { args: apply_args_of(cached, reverse), patch, code: String::from_str("hunk_apply_failed") })
}

/// `git apply` arguments: `--cached` to apply to the index, `--reverse` to
/// undo, then `--`.
pub open spec fn apply_args(cached: bool, reverse: bool) -> Seq<Seq<char>> {
    seq!["apply"@] + (if cached { seq!["--cached"@] } else { Seq::empty() }) + (if reverse {
        seq!["--reverse"@]
    } else {
        Seq::empty()
    }) + seq!["--"@]
}

fn apply_args_of(cached: bool, reverse: bool) -> (r: Vec<String>)
    ensures
        arg_views(r@) == apply_args(cached, reverse),
{
    let mut a: Vec<String> = Vec::new();
    push_arg(&mut a, "apply");
    if cached {
        push_arg(&mut a, "--cached");
    }
    if reverse {
        push_arg(&mut a, "--reverse");
    }
    push_arg(&mut a, "--");
    assert(arg_views(a@) =~= apply_args(cached, reverse));
    a
}

/// Applying chosen lines of hunk `hunk_index` of a path's diff text: the
/// partial patch, forwards or in reverse, applied to the index (`cached`) or
/// the working tree. `staged` says which diff the text is, for the message
/// when it holds nothing. A hunk of more than `u32::MAX` lines, which no
/// machine holds, is refused.
pub fn lines_apply_plan(
    raw: &str,
    file_path: &str,
    hunk_index: u32,
    line_indices: &Vec<u32>,
    staged: bool,
    cached: bool,
    reverse: bool,
) -> (r: Result<ApplyPlan, TrunkError>)
    ensures
        ({
            let missing = (if staged { "No staged changes for: "@ } else { "No unstaged changes for: "@ }) + file_path@;
            match (r, single_diff(unified_diff(raw@), file_path@, hunk_index, missing)) {
                (Ok(p), Ok((fv, hv))) => p.patch@ == partial_patch(file_path@, fv.status, hv, line_indices@, reverse)
                    && p.code@ == "line_apply_failed"@ && arg_views(p.args@) == apply_args(cached, false),
                (Err(e), Err((c, m))) => e.code@ == c && e.message@ == m,
                (Err(e), Ok((_, hv))) => hv.lines.len() > u32::MAX && e.code@ == "line_apply_failed"@,
                _ => false,
            }
        }),
{
    let diffs = parse_unified_diff(raw);
    let mut missing: Vec<char> = Vec::new();
    if staged {
        push_str(&mut missing, "No staged changes for: ");
    } else {
        push_str(&mut missing, "No unstaged changes for: ");
    }
    push_str(&mut missing, file_path);
    let missing_s = string_of(&missing);
    let (file_diff, hunk) = match single_wsl_diff(diffs, file_path, hunk_index, missing_s.as_str()) {
        Ok(x) => x,
        Err(e) => return Err(e),
    };
    if hunk.lines.len() > u32::MAX as usize {
        return Err(TrunkError::new("line_apply_failed", "Hunk has too many lines"));
    }
    let patch = build_partial_patch_from_diff(file_path, &file_diff, &hunk, line_indices.as_slice(), reverse);
    Ok(ApplyPlan {
        args: apply_args_of(cached, false),
        patch,
        code: String::from_str("line_apply_failed"),
    })
}

} // verus!
