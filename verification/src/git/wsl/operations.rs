//! The decisions of the WSL backend's history, branch and conflict
//! operations. Each operation runs git commands in turn; the functions here
//! say which command comes next and what the outputs so far mean. Running the
//! commands is left to the application.
use vstd::prelude::*;

use crate::error::TrunkError;
use crate::git::command_runner::{
    arg_views, push_arg, stderr_error, stderr_text, stdout_string, stdout_text, trimmed_chars,
    CommandOutput,
};
use crate::git::read_model::{prefix7, short_oid};
use crate::git::types::{
    FileStatusType, MergeSides, RebaseTodoItem, UndoResult, WorkingTreeStatus,
};
use crate::text::{
    chars_eq, chars_of, is_blank, lines, lines_of, parse_i64, parse_i64_chars, piece,
    push_str, splitn, splitn_of, string_of, trim, trim_end, trim_end_chars, views, words,
    words_of,
};

verus! {

// ---------------------------------------------------------------------------
// Undo and redo of the last commit
// ---------------------------------------------------------------------------

/// How many parents `rev-list --parents -n 1` listed after the commit itself.
pub open spec fn parent_count(text: Seq<char>) -> nat {
    if words(text).len() == 0 {
        0
    } else {
        (words(text).len() - 1) as nat
    }
}

fn parent_count_of(o: &CommandOutput) -> (n: usize)
    ensures
        n == parent_count(stdout_text(*o)),
{
    let ws = words_of(&chars_of(stdout_string(o).as_str()));
    if ws.len() == 0 {
        0
    } else {
        ws.len() - 1
    }
}

/// Subject and body of `log -1 --format=%s%x00%b` output, each with trailing
/// white space removed; the body absent when empty.
pub open spec fn undo_message(text: Seq<char>) -> (Seq<char>, Option<Seq<char>>) {
    let parts = splitn(text, '\0', 2);
    (trim_end(piece(parts, 0)), if parts.len() >= 2 && trim_end(parts[1]).len() > 0 {
        Some(trim_end(parts[1]))
    } else {
        None
    })
}

/// The next step of undoing the last commit, in the model.
pub enum UndoView {
    Run(Seq<Seq<char>>),
    Fail(Seq<char>, Seq<char>),
    Undone(Seq<char>, Option<Seq<char>>),
}

/// Undoing the last commit: read its parents (refusing a root commit or a
/// merge), read its message, then move the branch back by one commit keeping
/// the changes staged. `outputs` holds what the commands run so far left.
pub open spec fn undo_next(outputs: Seq<CommandOutput>) -> UndoView {
    if outputs.len() == 0 {
        UndoView::Run(seq!["rev-list"@, "--parents"@, "-n"@, "1"@, "HEAD"@])
    } else if !outputs[0].success {
        UndoView::Fail("undo_error"@, stderr_text(outputs[0]))
    } else if parent_count(stdout_text(outputs[0])) == 0 {
        UndoView::Fail("nothing_to_undo"@, "Cannot undo the initial commit"@)
    } else if parent_count(stdout_text(outputs[0])) > 1 {
        UndoView::Fail("merge_commit"@, "Cannot undo a merge commit"@)
    } else if outputs.len() == 1 {
        UndoView::Run(seq!["log"@, "-1"@, "--format=%s%x00%b"@])
    } else if !outputs[1].success {
        UndoView::Fail("undo_error"@, stderr_text(outputs[1]))
    } else if outputs.len() == 2 {
        UndoView::Run(seq!["reset"@, "--soft"@, "HEAD~1"@])
    } else if !outputs[2].success {
        UndoView::Fail("undo_error"@, stderr_text(outputs[2]))
    } else {
        UndoView::Undone(undo_message(stdout_text(outputs[1])).0, undo_message(stdout_text(outputs[1])).1)
    }
}

/// The next step of undoing the last commit.
#[derive(Debug)]
pub enum UndoStep {
    /// Run git with these arguments and come back with its output.
    Run(Vec<String>),
    /// The message of the undone commit, or why it was not undone.
    Done(Result<UndoResult, TrunkError>),
}

pub open spec fn undo_view(s: UndoStep) -> UndoView {
    match s {
        UndoStep::Run(a) => UndoView::Run(arg_views(a@)),
        UndoStep::Done(Err(e)) => UndoView::Fail(e.code@, e.message@),
        UndoStep::Done(Ok(u)) => UndoView::Undone(
            u.subject@,
            match u.body {
                Some(b) => Some(b@),
                None => None,
            },
        ),
    }
}

fn args3(a: &str, b: &str, c: &str) -> (r: Vec<String>)
    ensures
        arg_views(r@) == seq![a@, b@, c@],
{
    let mut v: Vec<String> = Vec::new();
    push_arg(&mut v, a);
    push_arg(&mut v, b);
    push_arg(&mut v, c);
    v
}

/// Undoes the last commit, one command at a time.
pub fn undo_commit_step(outputs: &Vec<CommandOutput>) -> (r: UndoStep)
    ensures
        undo_view(r) == undo_next(outputs@),
{
    if outputs.len() == 0 {
        let mut a: Vec<String> = Vec::new();
        push_arg(&mut a, "rev-list");
        push_arg(&mut a, "--parents");
        push_arg(&mut a, "-n");
        push_arg(&mut a, "1");
        push_arg(&mut a, "HEAD");
        assert(arg_views(a@) =~= seq!["rev-list"@, "--parents"@, "-n"@, "1"@, "HEAD"@]);
        return UndoStep::Run(a);
    }
    if !outputs[0].success {
        return UndoStep::Done(Err(stderr_error(&outputs[0], "undo_error")));
    }
    let n = parent_count_of(&outputs[0]);
    if n == 0 {
        return UndoStep::Done(Err(TrunkError::new("nothing_to_undo", "Cannot undo the initial commit")));
    }
    if n > 1 {
        return UndoStep::Done(Err(TrunkError::new("merge_commit", "Cannot undo a merge commit")));
    }
    if outputs.len() == 1 {
        return UndoStep::Run(args3("log", "-1", "--format=%s%x00%b"));
    }
    if !outputs[1].success {
        return UndoStep::Done(Err(stderr_error(&outputs[1], "undo_error")));
    }
    if outputs.len() == 2 {
        return UndoStep::Run(args3("reset", "--soft", "HEAD~1"));
    }
    if !outputs[2].success {
        return UndoStep::Done(Err(stderr_error(&outputs[2], "undo_error")));
    }
    let text = stdout_string(&outputs[1]);
    let parts = splitn_of(&chars_of(text.as_str()), '\0', 2);
    let subject = if parts.len() >= 1 {
        string_of(&trim_end_chars(&parts[0]))
    } else {
        String::new()
    };
    let body = if parts.len() >= 2 {
        let b = trim_end_chars(&parts[1]);
        if b.len() > 0 {
            Some(string_of(&b))
        } else {
            None
        }
    } else {
        None
    };
    UndoStep::Done(Ok(UndoResult { subject, body }))
}

/// Whether the last commit can be undone: `rev-list --parents -n 1 HEAD`
/// succeeded and listed exactly one parent.
pub fn check_undo_available(output: &CommandOutput) -> (r: bool)
    ensures
        r == (output.success && parent_count(stdout_text(*output)) == 1),
{
    if !output.success {
        return false;
    }
    parent_count_of(output) == 1
}

/// The message a redone commit gets: the subject, then a blank line and the
/// body when the body is not blank.
pub open spec fn redo_text(subject: Seq<char>, body: Option<Seq<char>>) -> Seq<char> {
    match body {
        Some(b) => if trim(b).len() > 0 {
            subject + "\n\n"@ + b
        } else {
            subject
        },
        None => subject,
    }
}

pub open spec fn opt_str(o: Option<&str>) -> Option<Seq<char>> {
    match o {
        Some(s) => Some(s@),
        None => None,
    }
}

/// The command that commits the index again with an undone commit's message.
pub fn redo_commit_args(subject: &str, body: Option<&str>) -> (r: Vec<String>)
    ensures
        arg_views(r@) == seq!["commit"@, "-m"@, redo_text(subject@, opt_str(body))],
{
    let mut m: Vec<char> = chars_of(subject);
    match body {
        Some(b) => {
            if !is_blank(&chars_of(b)) {
                push_str(&mut m, "\n\n");
                push_str(&mut m, b);
            }
        },
        None => {},
    }
    let msg = string_of(&m);
    args3("commit", "-m", msg.as_str())
}

/// The outcome of a command whose failure is reported with its untrimmed
/// error output under `code`.
pub fn stderr_outcome(output: &CommandOutput, code: &str) -> (r: Result<(), TrunkError>)
    ensures
        r is Ok <==> output.success,
        r matches Err(e) ==> e.code@ == code@ && e.message@ == stderr_text(*output),
{
    if output.success {
        Ok(())
    } else {
        Err(stderr_error(output, code))
    }
}

// ---------------------------------------------------------------------------
// Conflicts
// ---------------------------------------------------------------------------

/// `:<stage>:<path>`, the argument that shows one stage of a conflicted path.
pub fn stage_spec(stage: &str, file_path: &str) -> (r: String)
    ensures
        r@ == ":"@ + stage@ + ":"@ + file_path@,
{
    let mut v: Vec<char> = Vec::new();
    push_str(&mut v, ":");
    push_str(&mut v, stage);
    push_str(&mut v, ":");
    push_str(&mut v, file_path);
    string_of(&v)
}

/// The text of a stage when `show :<stage>:<path>` succeeded.
pub open spec fn stage_text(o: CommandOutput) -> Option<Seq<char>> {
    if o.success {
        Some(stdout_text(o))
    } else {
        None
    }
}

fn stage_or_empty(o: &CommandOutput) -> (r: String)
    ensures
        r@ == match stage_text(*o) {
            Some(t) => t,
            None => Seq::empty(),
        },
{
    if o.success {
        stdout_string(o)
    } else {
        String::new()
    }
}

/// The three sides of a conflicted path from `show :1:`, `:2:` and `:3:`;
/// refused when neither our nor their side exists.
pub fn merge_sides(base: &CommandOutput, ours: &CommandOutput, theirs: &CommandOutput, file_path: &str) -> (r: Result<MergeSides, TrunkError>)
    ensures
        r is Err <==> !ours.success && !theirs.success,
        r matches Err(e) ==> e.code@ == "not_conflicted"@ && e.message@ == "File not in conflict: "@
            + file_path@,
        r matches Ok(m) ==> m.base@ == (if base.success { stdout_text(*base) } else { Seq::empty() })
            && m.ours@ == (if ours.success { stdout_text(*ours) } else { Seq::empty() })
            && m.theirs@ == (if theirs.success { stdout_text(*theirs) } else { Seq::empty() }),
{
    if !ours.success && !theirs.success {
        let mut v: Vec<char> = Vec::new();
        push_str(&mut v, "File not in conflict: ");
        push_str(&mut v, file_path);
        return Err(TrunkError::from_chars("not_conflicted", &v));
    }
    Ok(MergeSides { base: stage_or_empty(base), ours: stage_or_empty(ours), theirs: stage_or_empty(theirs) })
}

// ---------------------------------------------------------------------------
// Interactive rebase
// ---------------------------------------------------------------------------

/// The revision range an interactive rebase lists: from the base (or, when
/// the base itself is included, from its parent as `rev-parse <base>^`
/// printed it, or the whole history when it has none) up to `HEAD`.
pub open spec fn rebase_range_text(base_oid: Seq<char>, inclusive: bool, parent: Option<CommandOutput>) -> Seq<char> {
    if inclusive {
        match parent {
            Some(o) => if o.success {
                trim(stdout_text(o)) + "..HEAD"@
            } else {
                "HEAD"@
            },
            None => "HEAD"@,
        }
    } else {
        base_oid + "..HEAD"@
    }
}

/// `<base>^`, the revision whose id is the base's first parent.
pub fn parent_revision(base_oid: &str) -> (r: String)
    ensures
        r@ == base_oid@ + "^"@,
{
    let mut v = chars_of(base_oid);
    push_str(&mut v, "^");
    string_of(&v)
}

/// The revision range to list.
pub fn rebase_range(base_oid: &str, inclusive: bool, parent: &Option<CommandOutput>) -> (r: String)
    ensures
        r@ == rebase_range_text(base_oid@, inclusive, *parent),
{
    if inclusive {
        match parent {
            Some(o) => {
                if o.success {
                    let mut v = trimmed_chars(stdout_string(o).as_str());
                    push_str(&mut v, "..HEAD");
                    string_of(&v)
                } else {
                    String::from_str("HEAD")
                }
            },
            None => String::from_str("HEAD"),
        }
    } else {
        let mut v = chars_of(base_oid);
        push_str(&mut v, "..HEAD");
        string_of(&v)
    }
}

/// One line of `log --reverse --format=%H%x00%s%x00%an%x00%at`: id, subject,
/// author and author time (0 when it does not parse).
pub open spec fn todo_row(line: Seq<char>) -> (Seq<char>, Seq<char>, Seq<char>, i64) {
    let fs = splitn(line, '\0', 4);
    (piece(fs, 0), piece(fs, 1), piece(fs, 2), match parse_i64(piece(fs, 3)) {
        Some(t) => t,
        None => 0,
    })
}

pub open spec fn todo_item_is(item: RebaseTodoItem, line: Seq<char>) -> bool {
    let (oid, summary, author, ts) = todo_row(line);
    &&& item.oid@ == oid
    &&& item.short_oid@ == prefix7(oid)
    &&& item.summary@ == summary
    &&& item.author_name@ == author
    &&& item.author_timestamp == ts
}

fn piece_of(fs: &Vec<Vec<char>>, k: usize) -> (r: Vec<char>)
    ensures
        r@ == piece(views(fs@), k as int),
{
    if k < fs.len() {
        crate::text::copy_chars(&fs[k])
    } else {
        Vec::new()
    }
}

/// The commits an interactive rebase would replay, oldest first, from what
/// the log printed; `rebase_error` with git's error output when it failed.
pub fn rebase_todo_items(output: &CommandOutput) -> (r: Result<Vec<RebaseTodoItem>, TrunkError>)
    ensures
        r is Ok <==> output.success,
        r matches Err(e) ==> e.code@ == "rebase_error"@ && e.message@ == stderr_text(*output),
        r matches Ok(items) ==> items@.len() == lines(stdout_text(*output)).len() && forall|i: int|
            0 <= i < items@.len() ==> todo_item_is(
                #[trigger] items@[i],
                lines(stdout_text(*output))[i],
            ),
{
    if !output.success {
        return Err(stderr_error(output, "rebase_error"));
    }
    let text = stdout_string(output);
    let ls = lines_of(&chars_of(text.as_str()));
    let ghost lv = views(ls@);
    let mut items: Vec<RebaseTodoItem> = Vec::new();
    for i in 0..ls.len()
        invariant
            lv == views(ls@),
            lv == lines(text@),
            items@.len() == i,
            forall|k: int| 0 <= k < i ==> todo_item_is(#[trigger] items@[k], lv[k]),
    {
        let fs = splitn_of(&ls[i], '\0', 4);
        let oid = string_of(&piece_of(&fs, 0));
        let summary = string_of(&piece_of(&fs, 1));
        let author_name = string_of(&piece_of(&fs, 2));
        let author_timestamp = match parse_i64_chars(&piece_of(&fs, 3)) {
            Some(t) => t,
            None => 0,
        };
        let short = short_oid(oid.as_str());
        assert(ls@[i as int]@ == lv[i as int]);
        items.push(RebaseTodoItem { oid, short_oid: short, summary, author_name, author_timestamp });
    }
    Ok(items)
}

// ---------------------------------------------------------------------------
// Branches and the working tree
// ---------------------------------------------------------------------------

/// The outcome of `merge --ff-only`: refused as `not_fast_forward` with git's
/// trimmed error output.
pub fn fast_forward_result(output: &CommandOutput) -> (r: Result<(), TrunkError>)
    ensures
        r is Ok <==> output.success,
        r matches Err(e) ==> e.code@ == "not_fast_forward"@ && e.message@ == trim(stderr_text(*output)),
{
    if output.success {
        Ok(())
    } else {
        let t = trimmed_chars(crate::git::command_runner::stderr_string(output).as_str());
        Err(TrunkError::from_chars("not_fast_forward", &t))
    }
}

/// The command that creates a branch at `HEAD` or at a given commit.
pub fn create_branch_args(name: &str, from_oid: Option<&str>) -> (r: Vec<String>)
    ensures
        arg_views(r@) == seq!["branch"@, name@] + match from_oid {
            Some(o) => seq![o@],
            None => Seq::empty(),
        },
{
    let mut a: Vec<String> = Vec::new();
    push_arg(&mut a, "branch");
    push_arg(&mut a, name);
    match from_oid {
        Some(o) => push_arg(&mut a, o),
        None => {},
    }
    a
}

/// Whether a new branch may be checked out, from `diff-index --quiet HEAD`:
/// refused when the working tree has uncommitted changes.
pub fn checkout_after_create(dirty_check: &CommandOutput) -> (r: Result<(), TrunkError>)
    ensures
        r is Ok <==> dirty_check.success,
        r matches Err(e) ==> e.code@ == "dirty_workdir"@ && e.message@
            == "Branch created but working tree has uncommitted changes — checkout skipped"@,
{
    if dirty_check.success {
        Ok(())
    } else {
        Err(TrunkError::new(
            "dirty_workdir",
            "Branch created but working tree has uncommitted changes — checkout skipped",
        ))
    }
}

/// Whether a branch may be deleted: not when it is the current branch.
pub fn delete_branch_check(current_branch: &str, branch_name: &str) -> (r: Result<(), TrunkError>)
    ensures
        r is Err <==> current_branch@ == branch_name@,
        r matches Err(e) ==> e.code@ == "cannot_delete_head"@ && e.message@
            == "Cannot delete the currently checked-out branch"@,
{
    if chars_eq(&chars_of(current_branch), &chars_of(branch_name)) {
        Err(TrunkError::new("cannot_delete_head", "Cannot delete the currently checked-out branch"))
    } else {
        Ok(())
    }
}

/// The first unstaged entry for a path, if any.
pub open spec fn unstaged_entry(status: WorkingTreeStatus, path: Seq<char>) -> Option<int> {
    if exists|i: int| 0 <= i < status.unstaged@.len() && (#[trigger] status.unstaged@[i]).path@ == path {
        Some(
            choose|i: int|
                0 <= i < status.unstaged@.len() && (#[trigger] status.unstaged@[i]).path@ == path
                    && forall|j: int| 0 <= j < i ==> (#[trigger] status.unstaged@[j]).path@ != path,
        )
    } else {
        None
    }
}

/// The command that discards a path's unstaged change, with the error code
/// its failure is reported under: `clean -f` for a new file, `checkout` for
/// any other; refused when the path has no unstaged change.
pub fn discard_file_command(status: &WorkingTreeStatus, file_path: &str) -> (r: Result<(Vec<String>, String), TrunkError>)
    ensures
        r is Err <==> forall|i: int| 0 <= i < status.unstaged@.len() ==> (#[trigger] status.unstaged@[i]).path@ != file_path@,
        r matches Err(e) ==> e.code@ == "file_not_found"@ && e.message@
            == "File not in working tree changes: "@ + file_path@,
        r matches Ok((a, code)) ==> exists|i: int|
            0 <= i < status.unstaged@.len() && (#[trigger] status.unstaged@[i]).path@ == file_path@
                && (forall|j: int| 0 <= j < i ==> (#[trigger] status.unstaged@[j]).path@ != file_path@)
                && if status.unstaged@[i].status == FileStatusType::New {
                    arg_views(a@) == seq!["clean"@, "-f"@, "--"@, file_path@] && code@ == "io_error"@
                } else {
                    arg_views(a@) == seq!["checkout"@, "--"@, file_path@] && code@ == "discard_error"@
                },
{
    let fp = chars_of(file_path);
    let mut i: usize = 0;
    while i < status.unstaged.len()
        invariant
            i <= status.unstaged@.len(),
            fp@ == file_path@,
            forall|j: int| 0 <= j < i ==> (#[trigger] status.unstaged@[j]).path@ != file_path@,
        decreases status.unstaged@.len() - i,
    {
        if chars_eq(&chars_of(status.unstaged[i].path.as_str()), &fp) {
            let mut a: Vec<String> = Vec::new();
            if status.unstaged[i].status == FileStatusType::New {
                push_arg(&mut a, "clean");
                push_arg(&mut a, "-f");
                push_arg(&mut a, "--");
                push_arg(&mut a, file_path);
                return Ok((a, String::from_str("io_error")));
            } else {
                push_arg(&mut a, "checkout");
                push_arg(&mut a, "--");
                push_arg(&mut a, file_path);
                return Ok((a, String::from_str("discard_error")));
            }
        }
        i = i + 1;
    }
    let mut m: Vec<char> = Vec::new();
    push_str(&mut m, "File not in working tree changes: ");
    push_str(&mut m, file_path);
    Err(TrunkError::from_chars("file_not_found", &m))
}

/// The command that unstages everything: `restore --staged .` when `HEAD`
/// exists, else removal of every path from the index.
pub fn unstage_all_args(head_exists: bool) -> (r: Vec<String>)
    ensures
        arg_views(r@) == if head_exists {
            seq!["restore"@, "--staged"@, "."@]
        } else {
            seq!["rm"@, "--cached"@, "-r"@, "--ignore-unmatch"@, "."@]
        },
{
    if head_exists {
        args3("restore", "--staged", ".")
    } else {
        let mut a: Vec<String> = Vec::new();
        push_arg(&mut a, "rm");
        push_arg(&mut a, "--cached");
        push_arg(&mut a, "-r");
        push_arg(&mut a, "--ignore-unmatch");
        push_arg(&mut a, ".");
        a
    }
}

} // verus!
